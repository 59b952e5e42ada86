//! The MCP servers that a package binds.

use vstd::prelude::*;
use crate::agent_plugin::names::{
    header_name, header_value, host_of, is_header_name, is_header_value, is_loopback_host,
    is_mcp_command, is_safe_relative_path, loopback_host, mcp_command, safe_relative_path,
    text_up_to, up_to, url_host,
};
use crate::table::text_table;
use crate::text::{
    chars_of, contains_char, copy_opt, find, find_text, lemma_find_from, lowered, opt_text, same,
    same_ignoring_case, strip_prefix, text_of, texts,
};
use crate::value::{
    collected, entries, field, lemma_collected_found, lemma_collected_push, lemma_nothing_collected,
    lemma_object_view, new_object, object, opt_string, put, store, string_value, strings,
    strings_value, with_some, Json, Value,
};

verus! {

/// Bundled MCP stdio server binding for an Agent Plugin.
#[derive(Debug, Clone)]
pub struct AgentPluginMcpServer {
    /// Executable command used for the bundled MCP stdio server.
    pub command: String,
    /// Arguments passed to the MCP stdio command.
    pub args: Vec<String>,
}

/// Closed Agent Plugins MCP server transport variants.
#[derive(Debug, Clone)]
pub enum AgentPluginMcpServerConfig {
    /// MCP server launched with the stdio transport.
    Stdio(AgentPluginStdioMcpServer),
    /// MCP server reached through the Streamable HTTP transport.
    StreamableHttp(AgentPluginRemoteMcpServer),
    /// MCP server reached through the legacy HTTP+SSE transport.
    Sse(AgentPluginRemoteMcpServer),
}

/// Stdio MCP server configuration.
#[derive(Debug, Clone)]
pub struct AgentPluginStdioMcpServer {
    /// Executable command token.
    pub command: String,
    /// Arguments passed to the executable.
    pub args: Vec<String>,
    /// Environment variables overlaid before `PLUGIN_ROOT` and `PLUGIN_DATA`.
    pub env: Vec<(String, String)>,
    /// Optional subprocess working directory.
    pub cwd: Option<String>,
}

/// Remote MCP server configuration.
#[derive(Debug, Clone)]
pub struct AgentPluginRemoteMcpServer {
    /// Absolute HTTP or HTTPS MCP endpoint URL.
    pub url: String,
    /// Fixed non-secret HTTP headers sent to the configured origin.
    pub headers: Vec<(String, String)>,
}

/// What a server configuration means.
pub enum Server {
    /// MCP server launched with the stdio transport.
    Stdio {
        /// Executable command token.
        command: Seq<char>,
        /// Arguments passed to the executable.
        args: Seq<Seq<char>>,
        /// Environment variables.
        env: Seq<(Seq<char>, Seq<char>)>,
        /// Optional subprocess working directory.
        cwd: Option<Seq<char>>,
    },
    /// MCP server reached through HTTP, by the legacy transport or not.
    Remote {
        /// Whether the legacy transport is used.
        legacy: bool,
        /// Endpoint URL.
        url: Seq<char>,
        /// Headers.
        headers: Seq<(Seq<char>, Seq<char>)>,
    },
}

impl View for AgentPluginStdioMcpServer {
    type V = Server;

    open spec fn view(&self) -> Server {
        Server::Stdio {
            command: self.command@,
            args: texts(self.args@),
            env: text_table(self.env@),
            cwd: opt_text(self.cwd),
        }
    }
}

impl View for AgentPluginMcpServerConfig {
    type V = Server;

    open spec fn view(&self) -> Server {
        match *self {
            AgentPluginMcpServerConfig::Stdio(s) => s@,
            AgentPluginMcpServerConfig::StreamableHttp(s) => Server::Remote {
                legacy: false,
                url: s.url@,
                headers: text_table(s.headers@),
            },
            AgentPluginMcpServerConfig::Sse(s) => Server::Remote {
                legacy: true,
                url: s.url@,
                headers: text_table(s.headers@),
            },
        }
    }
}

/// What named server configurations mean.
pub open spec fn servers(v: Seq<(String, AgentPluginMcpServerConfig)>) -> Seq<(Seq<char>, Server)> {
    v.map_values(|e: (String, AgentPluginMcpServerConfig)| (e.0@, e.1@))
}

/// Copies a table of texts.
pub fn copy_text_table(v: &Vec<(String, String)>) -> (r: Vec<(String, String)>)
    ensures
        text_table(r@) == text_table(v@),
{
    let mut out: Vec<(String, String)> = Vec::new();
    let mut i: usize = 0;
    while i < v.len()
        invariant
            i <= v@.len(),
            text_table(out@) == text_table(v@).take(i as int),
        decreases v.len() - i,
    {
        let ghost was = text_table(out@);
        let ghost next = text_table(v@)[i as int];
        out.push((v[i].0.clone(), v[i].1.clone()));
        assert(text_table(out@) =~= was.push(next));
        assert(text_table(v@).take(i + 1) =~= text_table(v@).take(i as int).push(next));
        i += 1;
    }
    assert(text_table(v@).take(v@.len() as int) =~= text_table(v@));
    out
}

/// Copies a server configuration.
pub fn copy_server(server: &AgentPluginMcpServerConfig) -> (r: AgentPluginMcpServerConfig)
    ensures
        r@ == server@,
{
    match server {
        AgentPluginMcpServerConfig::Stdio(s) => AgentPluginMcpServerConfig::Stdio(
            AgentPluginStdioMcpServer {
                command: s.command.clone(),
                args: s.args.clone(),
                env: copy_text_table(&s.env),
                cwd: copy_opt(&s.cwd),
            },
        ),
        AgentPluginMcpServerConfig::StreamableHttp(s) => {
            AgentPluginMcpServerConfig::StreamableHttp(
                AgentPluginRemoteMcpServer {
                    url: s.url.clone(),
                    headers: copy_text_table(&s.headers),
                },
            )
        },
        AgentPluginMcpServerConfig::Sse(s) => AgentPluginMcpServerConfig::Sse(
            AgentPluginRemoteMcpServer {
                url: s.url.clone(),
                headers: copy_text_table(&s.headers),
            },
        ),
    }
}

// ---------------------------------------------------------------------------
// What is wrong with a server
// ---------------------------------------------------------------------------

/// What is wrong with a server configuration.
#[derive(Debug)]
pub enum ServerFault {
    /// The stdio command is not a bare token or plugin-relative path.
    Command,
    /// Another rule is broken.
    Reason(String),
}

/// What a [`ServerFault`] means: the reason where it is not the command.
pub open spec fn fault(r: Option<ServerFault>) -> Option<Option<Seq<char>>> {
    match r {
        Some(ServerFault::Command) => Some(None),
        Some(ServerFault::Reason(s)) => Some(Some(s@)),
        None => None,
    }
}

/// Whether a variable is one that the host sets.
pub open spec fn reserved_variable(key: Seq<char>) -> bool {
    lowered(key) == lowered("PLUGIN_ROOT"@) || lowered(key) == lowered("PLUGIN_DATA"@)
}

/// What is wrong with the environment variables from `from` on.
pub open spec fn env_fault(env: Seq<(Seq<char>, Seq<char>)>, from: nat) -> Option<Seq<char>>
    decreases env.len() - from,
{
    if from >= env.len() {
        None
    } else {
        let key = env[from as int].0;
        if reserved_variable(key) {
            Some("env must not set PLUGIN_ROOT or PLUGIN_DATA"@)
        } else if key.len() == 0 || key.contains('=') || key.contains('\0') {
            Some("env keys must be non-empty variable names"@)
        } else {
            env_fault(env, from + 1)
        }
    }
}

/// Whether a working directory is within the package or its data directory.
pub open spec fn cwd_allowed(cwd: Seq<char>) -> bool {
    if "./"@.is_prefix_of(cwd) {
        safe_relative_path(cwd.skip("./"@.len() as int))
    } else if cwd == "${PLUGIN_ROOT}"@ || cwd == "${PLUGIN_DATA}"@ {
        true
    } else if "${PLUGIN_ROOT}/"@.is_prefix_of(cwd) {
        safe_relative_path(cwd.skip("${PLUGIN_ROOT}/"@.len() as int))
    } else if "${PLUGIN_DATA}/"@.is_prefix_of(cwd) {
        safe_relative_path(cwd.skip("${PLUGIN_DATA}/"@.len() as int))
    } else {
        false
    }
}

/// Whether a working directory is within the package or its data directory.
pub fn is_cwd_allowed(cwd: &str) -> (r: bool)
    ensures
        r == cwd_allowed(cwd@),
{
    if let Some(suffix) = strip_prefix(cwd, "./") {
        return is_safe_relative_path(suffix.as_str());
    }
    if same(cwd, "${PLUGIN_ROOT}") || same(cwd, "${PLUGIN_DATA}") {
        return true;
    }
    if let Some(suffix) = strip_prefix(cwd, "${PLUGIN_ROOT}/") {
        return is_safe_relative_path(suffix.as_str());
    }
    if let Some(suffix) = strip_prefix(cwd, "${PLUGIN_DATA}/") {
        return is_safe_relative_path(suffix.as_str());
    }
    false
}

/// The part of a text before the first slash or question mark.
pub open spec fn authority_of(rest: Seq<char>) -> Seq<char> {
    up_to(up_to(rest, '/'), '?')
}

/// What is wrong with the address of a server.
pub open spec fn url_fault(url: Seq<char>) -> Option<Seq<char>> {
    match find(url, "://"@) {
        None => Some("url must be absolute HTTP or HTTPS"@),
        Some(i) => {
            let scheme = url.take(i as int);
            let rest = url.skip(i as int + "://"@.len());
            let authority = authority_of(rest);
            if scheme != "http"@ && scheme != "https"@ {
                Some("url must use HTTP or HTTPS"@)
            } else if rest.contains('#') {
                Some("url must not contain a fragment"@)
            } else if authority.len() == 0 {
                Some("url must include a host"@)
            } else if authority.contains('@') {
                Some("url must not contain user information"@)
            } else {
                match host_of(authority) {
                    None => Some("url must include a host"@),
                    Some(host) => if scheme == "http"@ && !loopback_host(host) {
                        Some("non-loopback MCP URLs must use HTTPS"@)
                    } else {
                        None
                    },
                }
            }
        },
    }
}

/// Whether one of the first `n` headers has the given name, letters compared in
/// lowercase.
pub open spec fn header_before(headers: Seq<(Seq<char>, Seq<char>)>, n: nat, name: Seq<char>) -> bool {
    exists|i: int|
        0 <= i < n && i < headers.len() && lowered((#[trigger] headers[i]).0) == lowered(name)
}

/// What is wrong with the headers from `from` on.
pub open spec fn headers_fault(headers: Seq<(Seq<char>, Seq<char>)>, from: nat) -> Option<Seq<char>>
    decreases headers.len() - from,
{
    if from >= headers.len() {
        None
    } else {
        let (name, value) = headers[from as int];
        if !header_name(name) {
            Some("header names must be valid HTTP field names"@)
        } else if !header_value(value) {
            Some("header values must not contain control characters"@)
        } else if header_before(headers, from, name) {
            Some("header names must be unique case-insensitively"@)
        } else {
            headers_fault(headers, from + 1)
        }
    }
}

/// What is wrong with a server: first with its command or address, next with its
/// variables or headers, last with its working directory.
pub open spec fn server_fault(server: Server) -> Option<Option<Seq<char>>> {
    match server {
        Server::Stdio { command, env, cwd, .. } => if !mcp_command(command) {
            Some(None)
        } else {
            match env_fault(env, 0) {
                Some(reason) => Some(Some(reason)),
                None => if cwd is Some && !cwd_allowed(cwd->0) {
                    Some(Some("cwd must remain within PLUGIN_ROOT or PLUGIN_DATA"@))
                } else {
                    None
                },
            }
        },
        Server::Remote { url, headers, .. } => match url_fault(url) {
            Some(reason) => Some(Some(reason)),
            None => match headers_fault(headers, 0) {
                Some(reason) => Some(Some(reason)),
                None => None,
            },
        },
    }
}

fn check_env(env: &Vec<(String, String)>) -> (r: Option<String>)
    ensures
        opt_text(r) == env_fault(text_table(env@), 0),
{
    let ghost all = text_table(env@);
    let mut i: usize = 0;
    while i < env.len()
        invariant
            i <= env@.len(),
            all == text_table(env@),
            env_fault(all, 0) == env_fault(all, i as nat),
        decreases env.len() - i,
    {
        let key = env[i].0.as_str();
        assert(all[i as int].0 == key@);
        if same_ignoring_case(key, "PLUGIN_ROOT") || same_ignoring_case(key, "PLUGIN_DATA") {
            return Some("env must not set PLUGIN_ROOT or PLUGIN_DATA".to_string());
        }
        if chars_of(key).len() == 0 || contains_char(key, '=') || contains_char(key, '\0') {
            return Some("env keys must be non-empty variable names".to_string());
        }
        i += 1;
    }
    None
}

/// Finds what is wrong with a stdio server.
pub fn check_stdio(server: &AgentPluginStdioMcpServer) -> (r: Option<ServerFault>)
    ensures
        fault(r) == server_fault(server@),
{
    if !is_mcp_command(server.command.as_str()) {
        return Some(ServerFault::Command);
    }
    if let Some(reason) = check_env(&server.env) {
        return Some(ServerFault::Reason(reason));
    }
    if let Some(cwd) = &server.cwd {
        if !is_cwd_allowed(cwd.as_str()) {
            return Some(
                ServerFault::Reason(
                    "cwd must remain within PLUGIN_ROOT or PLUGIN_DATA".to_string(),
                ),
            );
        }
    }
    None
}

/// Finds what is wrong with the address of a server.
pub fn check_url(url: &str) -> (r: Option<String>)
    ensures
        opt_text(r) == url_fault(url@),
{
    let x = chars_of(url);
    let mark = chars_of("://");
    proof {
        lemma_find_from(url@, "://"@, 0);
    }
    let at: usize = match find_text(&x, &mark, 0) {
        Some(i) => i,
        None => {
            return Some("url must be absolute HTTP or HTTPS".to_string());
        },
    };
    assert(at + mark.len() <= x.len());
    let scheme = text_of(&x, 0, at);
    let rest = text_of(&x, at + mark.len(), x.len());
    assert(x@.subrange(0, at as int) =~= url@.take(at as int));
    assert(x@.subrange(at + mark@.len(), x@.len() as int) =~= url@.skip(at + mark@.len()));
    let plain = same(scheme.as_str(), "http");
    if !plain && !same(scheme.as_str(), "https") {
        return Some("url must use HTTP or HTTPS".to_string());
    }
    if contains_char(rest.as_str(), '#') {
        return Some("url must not contain a fragment".to_string());
    }
    let authority = text_up_to(text_up_to(rest.as_str(), '/').as_str(), '?');
    if chars_of(authority.as_str()).len() == 0 {
        return Some("url must include a host".to_string());
    }
    if contains_char(authority.as_str(), '@') {
        return Some("url must not contain user information".to_string());
    }
    match url_host(authority.as_str()) {
        None => Some("url must include a host".to_string()),
        Some(host) => {
            if plain && !is_loopback_host(host.as_str()) {
                Some("non-loopback MCP URLs must use HTTPS".to_string())
            } else {
                None
            }
        },
    }
}

pub fn is_header_before(headers: &Vec<(String, String)>, n: usize, name: &str) -> (r: bool)
    requires
        n <= headers@.len(),
    ensures
        r == header_before(text_table(headers@), n as nat, name@),
{
    let ghost all = text_table(headers@);
    let mut i: usize = 0;
    while i < n
        invariant
            i <= n <= headers@.len(),
            all == text_table(headers@),
            forall|k: int| 0 <= k < i ==> lowered((#[trigger] all[k]).0) != lowered(name@),
        decreases n - i,
    {
        assert(all[i as int].0 == headers@[i as int].0@);
        if same_ignoring_case(headers[i].0.as_str(), name) {
            return true;
        }
        i += 1;
    }
    false
}

/// Finds what is wrong with headers.
pub fn check_headers(headers: &Vec<(String, String)>) -> (r: Option<String>)
    ensures
        opt_text(r) == headers_fault(text_table(headers@), 0),
{
    let ghost all = text_table(headers@);
    let mut i: usize = 0;
    while i < headers.len()
        invariant
            i <= headers@.len(),
            all == text_table(headers@),
            headers_fault(all, 0) == headers_fault(all, i as nat),
        decreases headers.len() - i,
    {
        assert(all[i as int] == (headers@[i as int].0@, headers@[i as int].1@));
        if !is_header_name(headers[i].0.as_str()) {
            return Some("header names must be valid HTTP field names".to_string());
        }
        if !is_header_value(headers[i].1.as_str()) {
            return Some("header values must not contain control characters".to_string());
        }
        if is_header_before(headers, i, headers[i].0.as_str()) {
            return Some("header names must be unique case-insensitively".to_string());
        }
        i += 1;
    }
    None
}

/// Finds what is wrong with a server.
pub fn check_server(server: &AgentPluginMcpServerConfig) -> (r: Option<ServerFault>)
    ensures
        fault(r) == server_fault(server@),
{
    let remote = match server {
        AgentPluginMcpServerConfig::Stdio(s) => {
            return check_stdio(s);
        },
        AgentPluginMcpServerConfig::StreamableHttp(s) => s,
        AgentPluginMcpServerConfig::Sse(s) => s,
    };
    if let Some(reason) = check_url(remote.url.as_str()) {
        return Some(ServerFault::Reason(reason));
    }
    match check_headers(&remote.headers) {
        Some(reason) => Some(ServerFault::Reason(reason)),
        None => None,
    }
}

// ---------------------------------------------------------------------------
// Servers as JSON
// ---------------------------------------------------------------------------

/// A table of texts as a value.
pub open spec fn texts_object(table: Seq<(Seq<char>, Seq<char>)>) -> Json {
    object(table.map_values(|e: (Seq<char>, Seq<char>)| (e.0, Json::String(e.1))))
}

/// Makes a value of a table of texts.
pub fn texts_object_value(v: &Vec<(String, String)>) -> (r: Value)
    ensures
        r@ == texts_object(text_table(v@)),
{
    broadcast use lemma_object_view;

    let ghost all = text_table(v@).map_values(
        |e: (Seq<char>, Seq<char>)| (e.0, Json::String(e.1)),
    );
    let mut out = new_object();
    let mut i: usize = 0;
    assert(all.take(0) =~= Seq::empty());
    while i < v.len()
        invariant
            i <= v@.len(),
            all == text_table(v@).map_values(
                |e: (Seq<char>, Seq<char>)| (e.0, Json::String(e.1)),
            ),
            entries(out@) == collected(all.take(i as int)),
        decreases v.len() - i,
    {
        assert(all.take(i + 1).drop_last() =~= all.take(i as int));
        assert(all.take(i + 1).last() == (v@[i as int].0@, Json::String(v@[i as int].1@)));
        store(&mut out, v[i].0.clone(), string_value(v[i].1.as_str()));
        i += 1;
    }
    assert(all.take(all.len() as int) =~= all);
    Value::Object(out)
}

/// The value where the sequence is not empty.
pub open spec fn if_any<A>(v: Seq<A>, value: Json) -> Option<Json> {
    if v.len() == 0 {
        None
    } else {
        Some(value)
    }
}

/// A server as a value.
pub open spec fn server_json(server: Server) -> Json {
    match server {
        Server::Stdio { command, args, env, cwd } => object(
            with_some(
                with_some(
                    with_some(
                        Seq::empty().push(("type"@, Json::String("stdio"@))).push(
                            ("command"@, Json::String(command)),
                        ),
                        "args"@,
                        if_any(args, strings(args)),
                    ),
                    "env"@,
                    if_any(env, texts_object(env)),
                ),
                "cwd"@,
                opt_string(cwd),
            ),
        ),
        Server::Remote { legacy, url, headers } => object(
            with_some(
                Seq::empty().push(
                    (
                        "type"@,
                        Json::String(
                            if legacy {
                                "sse"@
                            } else {
                                "streamable-http"@
                            },
                        ),
                    ),
                ).push(("url"@, Json::String(url))),
                "headers"@,
                if_any(headers, texts_object(headers)),
            ),
        ),
    }
}

fn remote_mcp_json(kind: &str, server: &AgentPluginRemoteMcpServer) -> (r: Value)
    requires
        kind@ == "sse"@ || kind@ == "streamable-http"@,
    ensures
        r@ == object(
            with_some(
                Seq::empty().push(("type"@, Json::String(kind@))).push(
                    ("url"@, Json::String(server.url@)),
                ),
                "headers"@,
                if_any(text_table(server.headers@), texts_object(text_table(server.headers@))),
            ),
        ),
{
    broadcast use {lemma_collected_push, lemma_object_view};

    let mut value = new_object();
    put(&mut value, "type", string_value(kind));
    put(&mut value, "url", string_value(server.url.as_str()));
    if server.headers.len() > 0 {
        put(&mut value, "headers", texts_object_value(&server.headers));
    }
    Value::Object(value)
}

/// Makes a value of a server.
pub fn mcp_server_json(server: &AgentPluginMcpServerConfig) -> (r: Value)
    ensures
        r@ == server_json(server@),
{
    broadcast use {lemma_collected_push, lemma_object_view};

    match server {
        AgentPluginMcpServerConfig::Stdio(s) => {
            let mut value = new_object();
            put(&mut value, "type", string_value("stdio"));
            put(&mut value, "command", string_value(s.command.as_str()));
            if s.args.len() > 0 {
                put(&mut value, "args", strings_value(&s.args));
            }
            if s.env.len() > 0 {
                put(&mut value, "env", texts_object_value(&s.env));
            }
            if let Some(cwd) = &s.cwd {
                put(&mut value, "cwd", string_value(cwd.as_str()));
            }
            Value::Object(value)
        },
        AgentPluginMcpServerConfig::StreamableHttp(s) => remote_mcp_json("streamable-http", s),
        AgentPluginMcpServerConfig::Sse(s) => remote_mcp_json("sse", s),
    }
}

/// Variables are sound exactly where each has a name, without an equals sign or a null
/// character in it, that is not reserved.
pub proof fn law_variables_are_sound(env: Seq<(Seq<char>, Seq<char>)>, from: nat)
    ensures
        env_fault(env, from) is None <==> forall|i: int|
            from <= i < env.len() ==> (#[trigger] env[i]).0.len() > 0 && !env[i].0.contains('=')
                && !env[i].0.contains('\0') && !reserved_variable(env[i].0),
    decreases env.len() - from,
{
    if from < env.len() {
        let key = env[from as int].0;
        if !(reserved_variable(key) || key.len() == 0 || key.contains('=') || key.contains('\0')) {
            law_variables_are_sound(env, from + 1);
        }
    }
}

/// Headers are sound exactly where each name and value is valid and no name comes twice,
/// whatever its casing.
pub proof fn law_headers_are_sound(headers: Seq<(Seq<char>, Seq<char>)>, from: nat)
    ensures
        headers_fault(headers, from) is None <==> forall|i: int|
            from <= i < headers.len() ==> header_name((#[trigger] headers[i]).0) && header_value(
                headers[i].1,
            ) && !header_before(headers, i as nat, headers[i].0),
    decreases headers.len() - from,
{
    if from < headers.len() {
        let (name, value) = headers[from as int];
        if header_name(name) && header_value(value) && !header_before(headers, from, name) {
            law_headers_are_sound(headers, from + 1);
        } else {
            assert(headers[from as int] == (name, value));
        }
    }
}

/// The names of sound headers differ, whatever their casing.
pub proof fn law_sound_headers_differ(
    headers: Seq<(Seq<char>, Seq<char>)>,
    i: int,
    j: int,
)
    requires
        headers_fault(headers, 0) is None,
        0 <= i < j < headers.len(),
    ensures
        lowered(headers[i].0) != lowered(headers[j].0),
{
    law_headers_are_sound(headers, 0);
    assert(!header_before(headers, j as nat, headers[j].0));
    assert(lowered(headers[i].0) == lowered(headers[i].0));
}

/// A server is sound exactly where its command, variables and directory are, or its
/// address and headers.
pub proof fn law_servers_are_sound(server: Server)
    ensures
        server matches Server::Stdio { command, env, cwd, .. } ==> (server_fault(server) is None
            <==> {
            &&& mcp_command(command)
            &&& env_fault(env, 0) is None
            &&& cwd matches Some(path) ==> cwd_allowed(path)
        }),
        server matches Server::Remote { url, headers, .. } ==> (server_fault(server) is None <==> {
            &&& url_fault(url) is None
            &&& headers_fault(headers, 0) is None
        }),
        server matches Server::Stdio { command, .. } ==> (!mcp_command(command) ==> server_fault(
            server,
        ) == Some(None::<Seq<char>>)),
{
}

/// The address of a server is sound exactly where it is one of the web with a host, no
/// user and no fragment, and is secure or leads to this machine.
pub proof fn law_addresses_are_sound(scheme: Seq<char>, rest: Seq<char>)
    requires
        crate::text::find(scheme + "://"@ + rest, "://"@) == Some(scheme.len()),
    ensures
        url_fault(scheme + "://"@ + rest) is None <==> {
            &&& scheme == "http"@ || scheme == "https"@
            &&& !rest.contains('#')
            &&& authority_of(rest).len() > 0
            &&& !authority_of(rest).contains('@')
            &&& host_of(authority_of(rest)) matches Some(host) && (scheme == "https"@
                || loopback_host(host))
        },
{
    let url = scheme + "://"@ + rest;
    assert(url.take(scheme.len() as int) =~= scheme);
    assert(url.skip(scheme.len() as int + "://"@.len()) =~= rest);
    reveal_strlit("http");
    reveal_strlit("https");
    assert("http"@.len() != "https"@.len());
}

/// A directory is allowed at the root of the plugin or of its data, and below either.
pub proof fn law_directories_are_below_the_plugin(path: Seq<char>)
    requires
        safe_relative_path(path),
    ensures
        cwd_allowed("${PLUGIN_ROOT}"@),
        cwd_allowed("${PLUGIN_DATA}"@),
        cwd_allowed("./"@ + path),
        cwd_allowed("${PLUGIN_ROOT}/"@ + path),
        cwd_allowed("${PLUGIN_DATA}/"@ + path),
{
    reveal_strlit("./");
    reveal_strlit("${PLUGIN_ROOT}");
    reveal_strlit("${PLUGIN_DATA}");
    reveal_strlit("${PLUGIN_ROOT}/");
    reveal_strlit("${PLUGIN_DATA}/");
    let a = "./"@ + path;
    assert(a.subrange(0, 2) =~= "./"@);
    assert(a.skip(2) =~= path);
    let b = "${PLUGIN_ROOT}/"@ + path;
    assert(b.subrange(0, 15) =~= "${PLUGIN_ROOT}/"@);
    assert(b.skip(15) =~= path);
    assert(b[0] == '$');
    assert(b.len() > 14);
    let c = "${PLUGIN_DATA}/"@ + path;
    assert(c.subrange(0, 15) =~= "${PLUGIN_DATA}/"@);
    assert(c.skip(15) =~= path);
    assert(c[0] == '$');
    assert(c[9] == 'D');
    assert("${PLUGIN_ROOT}/"@[9] == 'R');
    assert("./"@[0] == '.');
    if "./"@.is_prefix_of("${PLUGIN_ROOT}"@) {
        assert("${PLUGIN_ROOT}"@.subrange(0, 2)[0] == '.');
    }
    if "./"@.is_prefix_of("${PLUGIN_DATA}"@) {
        assert("${PLUGIN_DATA}"@.subrange(0, 2)[0] == '.');
    }
    if "./"@.is_prefix_of(b) {
        assert(b.subrange(0, 2)[0] == '.');
    }
    if "./"@.is_prefix_of(c) {
        assert(c.subrange(0, 2)[0] == '.');
    }
    if "${PLUGIN_ROOT}/"@.is_prefix_of(c) {
        assert(c.subrange(0, 15)[9] == 'R');
    }
}

/// A server is written with its type, and with each part that it has.
pub proof fn law_servers_are_written(server: Server)
    ensures
        ({
            let value = server_json(server);
            &&& server matches Server::Stdio { command, args, env, cwd } ==> {
                &&& field(value, "type"@) == Some(Json::String("stdio"@))
                &&& field(value, "command"@) == Some(Json::String(command))
                &&& args.len() == 0 ==> field(value, "args"@) is None
                &&& args.len() > 0 ==> field(value, "args"@) == Some(strings(args))
                &&& env.len() == 0 ==> field(value, "env"@) is None
                &&& env.len() > 0 ==> field(value, "env"@) == Some(texts_object(env))
                &&& field(value, "cwd"@) == opt_string(cwd)
            }
            &&& server matches Server::Remote { legacy, url, headers } ==> {
                &&& legacy ==> field(value, "type"@) == Some(Json::String("sse"@))
                &&& !legacy ==> field(value, "type"@) == Some(Json::String("streamable-http"@))
                &&& field(value, "url"@) == Some(Json::String(url))
                &&& headers.len() == 0 ==> field(value, "headers"@) is None
                &&& headers.len() > 0 ==> field(value, "headers"@) == Some(texts_object(headers))
            }
        }),
{
    broadcast use {lemma_collected_found, lemma_nothing_collected};

    lemma_server_keys();
}

/// The keys of servers differ.
proof fn lemma_server_keys()
    ensures
        "type"@ != "command"@,
        "type"@ != "args"@,
        "type"@ != "env"@,
        "type"@ != "cwd"@,
        "type"@ != "url"@,
        "type"@ != "headers"@,
        "command"@ != "args"@,
        "command"@ != "env"@,
        "command"@ != "cwd"@,
        "command"@ != "url"@,
        "command"@ != "headers"@,
        "args"@ != "env"@,
        "args"@ != "cwd"@,
        "args"@ != "url"@,
        "args"@ != "headers"@,
        "env"@ != "cwd"@,
        "env"@ != "url"@,
        "env"@ != "headers"@,
        "cwd"@ != "url"@,
        "cwd"@ != "headers"@,
        "url"@ != "headers"@,
{
    reveal_strlit("type");
    reveal_strlit("command");
    reveal_strlit("args");
    reveal_strlit("env");
    reveal_strlit("cwd");
    reveal_strlit("url");
    reveal_strlit("headers");
    assert("type"@.len() == 4);
    assert("command"@.len() == 7);
    assert("args"@.len() == 4);
    assert("env"@.len() == 3);
    assert("cwd"@.len() == 3);
    assert("url"@.len() == 3);
    assert("headers"@.len() == 7);
    assert("args"@[0] == 'a');
    assert("command"@[0] == 'c');
    assert("cwd"@[0] == 'c');
    assert("env"@[0] == 'e');
    assert("headers"@[0] == 'h');
    assert("type"@[0] == 't');
    assert("url"@[0] == 'u');
}

} // verus!
