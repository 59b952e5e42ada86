//! Publishing a package.

use vstd::prelude::*;
use crate::agent_plugin::error::{fault_of, AgentPluginPublisherError, Fault};
use crate::agent_plugin::names::{
    extension_namespace, holds_white_space, is_extension_namespace, is_mcp_command, is_plugin_name,
    mcp_command, plugin_name,
};
use crate::agent_plugin::servers::{
    check_server, copy_server, if_any, mcp_server_json, server_fault, server_json, servers,
    AgentPluginMcpServer, AgentPluginMcpServerConfig, AgentPluginStdioMcpServer, Server,
    ServerFault,
};
use crate::agent_plugin::skills::{AuthoredSkill, AuthoredSkillFile, SkillFile};
use crate::table;
use crate::table::{
    distinct, in_order, inserted, keyed, keys, lemma_inserted_mapped, lemma_lookup_inserted,
    lemma_lookup_ordered, lemma_ordered, lookup, mapped, ordered, stored, text_table,
};
use crate::text::{
    cat, cat3, chars_of, ends_with, has_white_space, opt_text, replace, replaced, same, starts_with,
    texts,
};
use crate::value::{
    collected, copy_entries, entries, field, insert, lemma_array_view, lemma_collected_found,
    lemma_collected_push, lemma_nothing_collected, lemma_object_view, new_object, object,
    opt_string, put, sort_entries, store, string_value, strings, strings_value, values, with_some,
    Json, Value,
};

verus! {

/// Options that identify a portable Agent Plugin package.
#[derive(Debug)]
pub struct AgentPluginPublisherOptions {
    /// Standard root plugin manifest metadata.
    pub manifest: AgentPluginManifestMetadata,
    /// Prompt artifact publication options.
    pub skills: AgentPluginSkillOptions,
    /// Optional tool bindings published with the plugin.
    pub tools: AgentPluginToolBindingOptions,
    /// Optional executable Tool Runtime bundled under `bin/`.
    pub tool_runtime: Option<AgentPluginToolRuntimeOptions>,
    /// Filesystem publication policy.
    pub policy: AgentPluginPublicationPolicy,
}

/// Standard root plugin manifest metadata.
#[derive(Debug)]
pub struct AgentPluginManifestMetadata {
    /// Stable Agent Plugin identifier.
    pub name: String,
    /// Optional semantic plugin version.
    pub version: Option<String>,
    /// Optional human-readable plugin description.
    pub description: Option<String>,
    /// Optional author metadata.
    pub author: Option<AgentPluginAuthor>,
    /// Optional plugin homepage URL.
    pub homepage: Option<String>,
    /// Optional source repository URL.
    pub repository: Option<String>,
    /// Optional license identifier or license reference.
    pub license: Option<String>,
    /// Optional search and discovery keywords.
    pub keywords: Vec<String>,
    /// Optional client extension metadata keyed by reverse-domain namespace.
    pub extensions: Vec<(String, Value)>,
}

/// Standard Agent Plugin author metadata.
#[derive(Debug, Clone, Default)]
pub struct AgentPluginAuthor {
    /// Optional author or organization name.
    pub name: Option<String>,
    /// Optional author email address.
    pub email: Option<String>,
    /// Optional author URL.
    pub url: Option<String>,
}

/// Prompt artifact publication options.
#[derive(Debug, Clone)]
pub struct AgentPluginSkillOptions {
    /// CLI name shown in generated skill prompt artifacts.
    pub cli_name: String,
    /// Depth used when splitting commands into skill folders.
    pub depth: usize,
    /// Already-authored Agent Skill directories to copy into `skills/`.
    pub additional_skills: Vec<AgentPluginSkillDirectory>,
}

/// One already-authored Agent Skill directory copied into the plugin.
#[derive(Debug, Clone)]
pub struct AgentPluginSkillDirectory {
    /// Source directory containing a `SKILL.md` file and optional resources.
    pub source: String,
}

/// Optional tool bindings published with the plugin.
#[derive(Debug)]
pub struct AgentPluginToolBindingOptions {
    /// Optional legacy single bundled MCP stdio server binding.
    pub mcp_server: Option<AgentPluginMcpServer>,
    /// Named MCP server bindings written under `mcpServers`.
    pub mcp_servers: Vec<(String, AgentPluginMcpServerConfig)>,
}

/// One executable Tool Runtime bundled with an Agent Plugin.
#[derive(Debug, Clone)]
pub struct AgentPluginToolRuntimeOptions {
    /// Source executable copied into the plugin package.
    pub source: String,
    /// Command name published for interactive shell use.
    pub shell_command: String,
    /// Target operating system for the executable.
    pub target_os: String,
    /// Target architecture for the executable.
    pub target_arch: String,
}

/// Filesystem publication policy.
#[derive(Debug, Clone)]
pub struct AgentPluginPublicationPolicy {
    /// Whether to replace existing owned plugin artifacts.
    pub overwrite: bool,
}

/// Files written by an Agent Plugin publish operation.
#[derive(Debug, Clone)]
pub struct PublishedAgentPlugin {
    /// Plugin root directory.
    pub root: String,
    /// Files written relative to the plugin root.
    pub files: Vec<String>,
}

// ---------------------------------------------------------------------------
// Checks
// ---------------------------------------------------------------------------

/// What is wrong with the extensions from `from` on: a namespace that is no
/// domain written backwards, or a value that is no object.
pub open spec fn extensions_fault(extensions: Seq<(Seq<char>, Json)>, from: nat) -> Option<Fault>
    decreases extensions.len() - from,
{
    if from >= extensions.len() {
        None
    } else {
        let (namespace, value) = extensions[from as int];
        if !extension_namespace(namespace) || !(value is Object) {
            Some(Fault::Namespace(namespace))
        } else {
            extensions_fault(extensions, from + 1)
        }
    }
}

/// Checks the extensions of a manifest.
pub fn validate_manifest_metadata(manifest: &AgentPluginManifestMetadata) -> (r: Result<
    (),
    AgentPluginPublisherError,
>)
    ensures
        fault_of(r) == extensions_fault(entries(manifest.extensions@), 0),
{
    let ghost all = entries(manifest.extensions@);
    let mut i: usize = 0;
    while i < manifest.extensions.len()
        invariant
            i <= manifest.extensions@.len(),
            all == entries(manifest.extensions@),
            extensions_fault(all, 0) == extensions_fault(all, i as nat),
        decreases manifest.extensions.len() - i,
    {
        assert(all[i as int] == (
            manifest.extensions@[i as int].0@,
            manifest.extensions@[i as int].1@,
        ));
        let is_object = match &manifest.extensions[i].1 {
            Value::Object(_) => true,
            _ => false,
        };
        if !is_extension_namespace(manifest.extensions[i].0.as_str()) || !is_object {
            return Err(
                AgentPluginPublisherError::InvalidExtensionNamespace {
                    namespace: manifest.extensions[i].0.clone(),
                },
            );
        }
        i += 1;
    }
    Ok(())
}

/// What a server that is given by its command only means.
pub open spec fn bare_server(server: AgentPluginMcpServer) -> Server {
    Server::Stdio {
        command: server.command@,
        args: texts(server.args@),
        env: Seq::empty(),
        cwd: None,
    }
}

/// The servers that a package binds: the named ones, and the legacy one under the
/// name of the plugin.
pub open spec fn bound_servers(options: AgentPluginPublisherOptions) -> Seq<(Seq<char>, Server)> {
    match options.tools.mcp_server {
        Some(server) => inserted(
            servers(options.tools.mcp_servers@),
            options.manifest.name@,
            bare_server(server),
        ),
        None => servers(options.tools.mcp_servers@),
    }
}

/// What is wrong with the legacy server.
pub open spec fn legacy_fault(options: AgentPluginPublisherOptions) -> Option<Fault> {
    match options.tools.mcp_server {
        Some(server) => if lookup(
            servers(options.tools.mcp_servers@),
            options.manifest.name@,
        ) is Some {
            Some(
                Fault::Server(
                    options.manifest.name@,
                    "legacy mcp_server duplicates mcp_servers entry"@,
                ),
            )
        } else if !mcp_command(server.command@) {
            Some(Fault::Command(server.command@))
        } else {
            None
        },
        None => None,
    }
}

/// What is wrong with a named server.
pub open spec fn named_fault(name: Seq<char>, server: Server) -> Option<Fault> {
    if name.len() == 0 || holds_white_space(name) {
        Some(
            Fault::Server(name, "server name must be non-empty and contain no whitespace"@),
        )
    } else {
        match server_fault(server) {
            Some(Some(reason)) => Some(Fault::Server(name, reason)),
            Some(None) => Some(
                Fault::Command(
                    match server {
                        Server::Stdio { command, .. } => command,
                        _ => Seq::empty(),
                    },
                ),
            ),
            None => None,
        }
    }
}

/// What is wrong with the servers from `from` on.
pub open spec fn all_servers_fault(all: Seq<(Seq<char>, Server)>, from: nat) -> Option<Fault>
    decreases all.len() - from,
{
    if from >= all.len() {
        None
    } else {
        match named_fault(all[from as int].0, all[from as int].1) {
            Some(f) => Some(f),
            None => all_servers_fault(all, from + 1),
        }
    }
}

/// What is wrong with the servers that a package binds.
pub open spec fn bound_fault(options: AgentPluginPublisherOptions) -> Option<Fault> {
    match legacy_fault(options) {
        Some(f) => Some(f),
        None => all_servers_fault(bound_servers(options), 0),
    }
}

proof fn lemma_servers(v: Seq<(String, AgentPluginMcpServerConfig)>)
    ensures
        servers(v) == mapped(keyed(v), |s: AgentPluginMcpServerConfig| s@),
        keys(servers(v)) == keys(keyed(v)),
{
    assert(servers(v) =~= mapped(keyed(v), |s: AgentPluginMcpServerConfig| s@));
    assert(keys(servers(v)) =~= keys(keyed(v)));
}

fn copy_servers(v: &Vec<(String, AgentPluginMcpServerConfig)>) -> (r: Vec<
    (String, AgentPluginMcpServerConfig),
>)
    ensures
        servers(r@) == servers(v@),
{
    let ghost all = servers(v@);
    let mut out: Vec<(String, AgentPluginMcpServerConfig)> = Vec::new();
    let mut i: usize = 0;
    while i < v.len()
        invariant
            i <= v@.len(),
            all == servers(v@),
            servers(out@) == all.take(i as int),
        decreases v.len() - i,
    {
        let ghost was = servers(out@);
        out.push((v[i].0.clone(), copy_server(&v[i].1)));
        assert(servers(out@) =~= was.push(all[i as int]));
        assert(all.take(i + 1) =~= all.take(i as int).push(all[i as int]));
        i += 1;
    }
    assert(all.take(all.len() as int) =~= all);
    out
}

fn check_named(name: &String, server: &AgentPluginMcpServerConfig) -> (r: Result<
    (),
    AgentPluginPublisherError,
>)
    ensures
        fault_of(r) == named_fault(name@, server@),
{
    if chars_of(name.as_str()).len() == 0 || has_white_space(name.as_str()) {
        return Err(
            AgentPluginPublisherError::InvalidMcpServer {
                name: name.clone(),
                reason: "server name must be non-empty and contain no whitespace".to_string(),
            },
        );
    }
    match check_server(server) {
        Some(ServerFault::Reason(reason)) => Err(
            AgentPluginPublisherError::InvalidMcpServer { name: name.clone(), reason },
        ),
        Some(ServerFault::Command) => {
            let command = match server {
                AgentPluginMcpServerConfig::Stdio(s) => s.command.clone(),
                _ => String::new(),
            };
            assert(server@ is Remote ==> command@ =~= Seq::<char>::empty());
            Err(AgentPluginPublisherError::InvalidMcpCommand { command })
        },
        None => Ok(()),
    }
}

/// Checks the servers that a package binds, and gives them.
pub fn configured_mcp_servers(options: &AgentPluginPublisherOptions) -> (r: Result<
    Vec<(String, AgentPluginMcpServerConfig)>,
    AgentPluginPublisherError,
>)
    ensures
        match r {
            Ok(v) => bound_fault(*options) is None && servers(v@) == bound_servers(*options),
            Err(e) => bound_fault(*options) == Some(e@),
        },
{
    let mut all = copy_servers(&options.tools.mcp_servers);
    if let Some(server) = &options.tools.mcp_server {
        proof {
            lemma_servers(options.tools.mcp_servers@);
            lemma_servers(all@);
        }
        if table::has_key(&all, options.manifest.name.as_str()) {
            return Err(
                AgentPluginPublisherError::InvalidMcpServer {
                    name: options.manifest.name.clone(),
                    reason: "legacy mcp_server duplicates mcp_servers entry".to_string(),
                },
            );
        }
        if !is_mcp_command(server.command.as_str()) {
            return Err(
                AgentPluginPublisherError::InvalidMcpCommand { command: server.command.clone() },
            );
        }
        let none: Vec<(String, String)> = Vec::new();
        assert(text_table(none@) =~= Seq::empty());
        let bare = AgentPluginMcpServerConfig::Stdio(
            AgentPluginStdioMcpServer {
                command: server.command.clone(),
                args: server.args.clone(),
                env: none,
                cwd: None,
            },
        );
        proof {
            lemma_inserted_mapped(
                keyed(all@),
                options.manifest.name@,
                bare,
                |s: AgentPluginMcpServerConfig| s@,
            );
        }
        table::insert(&mut all, options.manifest.name.clone(), bare);
        proof {
            lemma_servers(all@);
        }
    }
    let ghost want = servers(all@);
    let mut i: usize = 0;
    while i < all.len()
        invariant
            i <= all@.len(),
            want == servers(all@),
            all_servers_fault(want, 0) == all_servers_fault(want, i as nat),
            want == bound_servers(*options),
            legacy_fault(*options) is None,
        decreases all.len() - i,
    {
        assert(want[i as int] == (all@[i as int].0@, all@[i as int].1@));
        match check_named(&all[i].0, &all[i].1) {
            Ok(_) => {},
            Err(e) => {
                return Err(e);
            },
        }
        i += 1;
    }
    Ok(all)
}

/// The extension that describes the bundled tool runtime.
pub open spec fn reserved_extension() -> Seq<char> {
    "io.github.douglance.incurs"@
}

/// What is wrong with the tool runtime, before its file is looked at.
pub open spec fn runtime_fault(
    runtime: AgentPluginToolRuntimeOptions,
    extensions: Seq<(Seq<char>, Json)>,
) -> Option<Seq<char>> {
    if lookup(extensions, reserved_extension()) is Some {
        Some("io.github.douglance.incurs is reserved for generated installer metadata"@)
    } else if !mcp_command(runtime.shell_command@) || "./"@.is_prefix_of(runtime.shell_command@)
        || ".exe"@.is_suffix_of(runtime.shell_command@) {
        Some("shell command must be one bare executable token without an .exe suffix"@)
    } else if runtime.target_os@ != "linux"@ && runtime.target_os@ != "macos"@
        && runtime.target_os@ != "windows"@ {
        Some("target OS must be linux, macos, or windows"@)
    } else if runtime.target_arch@ != "x86_64"@ && runtime.target_arch@ != "aarch64"@ {
        Some("target architecture must be x86_64 or aarch64"@)
    } else {
        None
    }
}

fn runtime_error(runtime: &AgentPluginToolRuntimeOptions, reason: &str) -> (r:
    AgentPluginPublisherError)
    ensures
        r@ == Fault::ToolRuntime(runtime.source@, reason@),
{
    AgentPluginPublisherError::InvalidToolRuntime {
        path: runtime.source.clone(),
        reason: reason.to_string(),
    }
}

/// Checks the tool runtime, before its file is looked at.
pub fn validate_tool_runtime(
    runtime: &AgentPluginToolRuntimeOptions,
    manifest: &AgentPluginManifestMetadata,
) -> (r: Result<(), AgentPluginPublisherError>)
    ensures
        fault_of(r) == match runtime_fault(*runtime, entries(manifest.extensions@)) {
            Some(reason) => Some(Fault::ToolRuntime(runtime.source@, reason)),
            None => None,
        },
{
    if crate::value::get(&manifest.extensions, "io.github.douglance.incurs").is_some() {
        return Err(
            runtime_error(
                runtime,
                "io.github.douglance.incurs is reserved for generated installer metadata",
            ),
        );
    }
    let command = runtime.shell_command.as_str();
    if !is_mcp_command(command) || starts_with(command, "./") || ends_with(command, ".exe") {
        return Err(
            runtime_error(
                runtime,
                "shell command must be one bare executable token without an .exe suffix",
            ),
        );
    }
    let os = runtime.target_os.as_str();
    if !same(os, "linux") && !same(os, "macos") && !same(os, "windows") {
        return Err(runtime_error(runtime, "target OS must be linux, macos, or windows"));
    }
    let arch = runtime.target_arch.as_str();
    if !same(arch, "x86_64") && !same(arch, "aarch64") {
        return Err(runtime_error(runtime, "target architecture must be x86_64 or aarch64"));
    }
    Ok(())
}

/// Checks the file of the tool runtime: it has to be a regular file, and one
/// that can be run unless it is for Windows.
pub fn check_runtime_file(
    runtime: &AgentPluginToolRuntimeOptions,
    is_symlink: bool,
    is_file: bool,
    is_executable: bool,
) -> (r: Result<(), AgentPluginPublisherError>)
    ensures
        fault_of(r) == (if is_symlink || !is_file {
            Some(
                Fault::ToolRuntime(
                    runtime.source@,
                    "source must be a regular file and not a symlink"@,
                ),
            )
        } else if runtime.target_os@ != "windows"@ && !is_executable {
            Some(Fault::ToolRuntime(runtime.source@, "source is not executable"@))
        } else {
            None
        }),
{
    if is_symlink || !is_file {
        return Err(runtime_error(runtime, "source must be a regular file and not a symlink"));
    }
    if !same(runtime.target_os.as_str(), "windows") && !is_executable {
        return Err(runtime_error(runtime, "source is not executable"));
    }
    Ok(())
}

/// What is wrong with the options of a package, before any file is looked at.
pub open spec fn options_fault(options: AgentPluginPublisherOptions) -> Option<Fault> {
    if !plugin_name(options.manifest.name@) {
        Some(Fault::PluginName(options.manifest.name@))
    } else {
        match extensions_fault(entries(options.manifest.extensions@), 0) {
            Some(f) => Some(f),
            None => match bound_fault(options) {
                Some(f) => Some(f),
                None => match options.tool_runtime {
                    Some(runtime) => match runtime_fault(
                        runtime,
                        entries(options.manifest.extensions@),
                    ) {
                        Some(reason) => Some(Fault::ToolRuntime(runtime.source@, reason)),
                        None => None,
                    },
                    None => None,
                },
            },
        }
    }
}

/// Checks the options of a package, and gives the servers that it binds.
pub fn check_options(options: &AgentPluginPublisherOptions) -> (r: Result<
    Vec<(String, AgentPluginMcpServerConfig)>,
    AgentPluginPublisherError,
>)
    ensures
        match r {
            Ok(v) => options_fault(*options) is None && servers(v@) == bound_servers(*options),
            Err(e) => options_fault(*options) == Some(e@),
        },
{
    if !is_plugin_name(options.manifest.name.as_str()) {
        return Err(
            AgentPluginPublisherError::InvalidPluginName { name: options.manifest.name.clone() },
        );
    }
    match validate_manifest_metadata(&options.manifest) {
        Ok(_) => {},
        Err(e) => {
            return Err(e);
        },
    }
    let all = match configured_mcp_servers(options) {
        Ok(all) => all,
        Err(e) => {
            return Err(e);
        },
    };
    if let Some(runtime) = &options.tool_runtime {
        match validate_tool_runtime(runtime, &options.manifest) {
            Ok(_) => {},
            Err(e) => {
                return Err(e);
            },
        }
    }
    Ok(all)
}

/// Gives the artifacts that a package owns, in the order in which they are looked
/// for.
pub fn owned_artifacts() -> (r: Vec<String>)
    ensures
        texts(r@) == seq!["plugin.json"@, "mcp.json"@, "skills"@, "bin"@],
{
    let mut out: Vec<String> = Vec::new();
    out.push("plugin.json".to_string());
    out.push("mcp.json".to_string());
    out.push("skills".to_string());
    out.push("bin".to_string());
    assert(texts(out@) =~= seq!["plugin.json"@, "mcp.json"@, "skills"@, "bin"@]);
    out
}

/// Decides whether a package can be written where artifacts of one exist:
/// `exists` says which of the files and directories that a package owns do. The
/// paths of the artifacts are given in the same order.
pub fn check_output(overwrite: bool, exists: &Vec<bool>, paths: &Vec<String>) -> (r: Result<
    (),
    AgentPluginPublisherError,
>)
    requires
        exists@.len() == paths@.len(),
    ensures
        fault_of(r) == (if overwrite {
            None
        } else {
            match crate::config::first_found(exists@, 0) {
                Some(i) => Some(Fault::Exists(paths@[i as int]@)),
                None => None,
            }
        }),
{
    if overwrite {
        return Ok(());
    }
    let mut i: usize = 0;
    while i < exists.len()
        invariant
            i <= exists@.len(),
            exists@.len() == paths@.len(),
            !overwrite,
            crate::config::first_found(exists@, 0) == crate::config::first_found(
                exists@,
                i as nat,
            ),
        decreases exists.len() - i,
    {
        if exists[i] {
            return Err(AgentPluginPublisherError::OutputExists { path: paths[i].clone() });
        }
        i += 1;
    }
    Ok(())
}

// ---------------------------------------------------------------------------
// Canonical JSON
// ---------------------------------------------------------------------------

/// A value with the entries of every object in the order of their keys.
pub open spec fn canonical(v: Json) -> Json
    decreases v,
{
    match v {
        Json::Array(items) => Json::Array(
            Seq::new(
                items.len(),
                |i: int|
                    if 0 <= i < items.len() {
                        canonical(items[i])
                    } else {
                        Json::Null
                    },
            ),
        ),
        Json::Object(fields) => Json::Object(ordered(each_canonical(fields))),
        other => other,
    }
}

/// The entries with their values in canonical form, one by one.
pub open spec fn each_canonical(fields: Seq<(Seq<char>, Json)>) -> Seq<(Seq<char>, Json)>
    decreases fields,
{
    Seq::new(
        fields.len(),
        |i: int|
            if 0 <= i < fields.len() {
                (fields[i].0, canonical(fields[i].1))
            } else {
                (Seq::empty(), Json::Null)
            },
    )
}

/// The canonical forms of values.
pub open spec fn all_canonical(v: Seq<Json>) -> Seq<Json> {
    v.map_values(|x: Json| canonical(x))
}

/// The entries with their values in canonical form.
pub open spec fn canonical_entries(v: Seq<(Seq<char>, Json)>) -> Seq<(Seq<char>, Json)> {
    v.map_values(|e: (Seq<char>, Json)| (e.0, canonical(e.1)))
}

/// The canonical form of an array or object is made of those of its parts.
pub proof fn lemma_canonical(items: Seq<Json>, fields: Seq<(Seq<char>, Json)>)
    ensures
        canonical(Json::Array(items)) == Json::Array(all_canonical(items)),
        canonical(Json::Object(fields)) == Json::Object(ordered(canonical_entries(fields))),
{
    reveal_with_fuel(canonical, 2);
    assert(canonical(Json::Array(items))->Array_0 =~= all_canonical(items));
    reveal_with_fuel(each_canonical, 2);
    assert(each_canonical(fields) =~= canonical_entries(fields));
}

/// Puts the entries of every object in the order of their keys.
pub fn canonicalize(value: &Value) -> (r: Value)
    ensures
        r@ == canonical(value@),
    decreases *value,
{
    match value {
        Value::Array(items) => {
            let ghost want = all_canonical(values(items@));
            let mut out: Vec<Value> = Vec::new();
            let mut i: usize = 0;
            while i < items.len()
                invariant
                    i <= items@.len(),
                    want == all_canonical(values(items@)),
                    values(out@) == want.take(i as int),
                    decreases_to!(*value => items@),
                decreases items.len() - i,
            {
                assert(decreases_to!(items@ => items@[i as int]));
                let ghost was = values(out@);
                let item = canonicalize(&items[i]);
                assert(item@ == want[i as int]);
                out.push(item);
                assert(values(out@) =~= was.push(want[i as int]));
                assert(want.take(i + 1) =~= want.take(i as int).push(want[i as int]));
                i += 1;
            }
            assert(want.take(want.len() as int) =~= want);
            proof {
                crate::value::lemma_array_view(*items);
                crate::value::lemma_array_view(out);
                lemma_canonical(values(items@), Seq::empty());
            }
            Value::Array(out)
        },
        Value::Object(fields) => {
            let ghost want = canonical_entries(entries(fields@));
            let mut out: Vec<(String, Value)> = Vec::new();
            let mut i: usize = 0;
            while i < fields.len()
                invariant
                    i <= fields@.len(),
                    want == canonical_entries(entries(fields@)),
                    entries(out@) == want.take(i as int),
                    decreases_to!(*value => fields@),
                decreases fields.len() - i,
            {
                assert(decreases_to!(fields@ => fields@[i as int].1));
                let ghost was = entries(out@);
                let item = canonicalize(&fields[i].1);
                out.push((fields[i].0.clone(), item));
                assert(entries(out@) =~= was.push(want[i as int]));
                assert(want.take(i + 1) =~= want.take(i as int).push(want[i as int]));
                i += 1;
            }
            assert(want.take(want.len() as int) =~= want);
            let sorted = sort_entries(out);
            proof {
                crate::value::lemma_object_view(*fields);
                crate::value::lemma_object_view(sorted);
                lemma_canonical(Seq::empty(), entries(fields@));
            }
            Value::Object(sorted)
        },
        other => other.copy(),
    }
}

// ---------------------------------------------------------------------------
// The manifest
// ---------------------------------------------------------------------------

/// An author as a value.
pub open spec fn author_json(author: AgentPluginAuthor) -> Json {
    object(
        with_some(
            with_some(
                with_some(Seq::empty(), "name"@, opt_string(opt_text(author.name))),
                "email"@,
                opt_string(opt_text(author.email)),
            ),
            "url"@,
            opt_string(opt_text(author.url)),
        ),
    )
}

/// The file name of the tool runtime.
pub open spec fn runtime_file(runtime: AgentPluginToolRuntimeOptions) -> Seq<char> {
    if runtime.target_os@ == "windows"@ {
        runtime.shell_command@ + ".exe"@
    } else {
        runtime.shell_command@
    }
}

/// The extensions of a manifest: those given, and one that describes the tool
/// runtime where there is one.
pub open spec fn all_extensions(options: AgentPluginPublisherOptions) -> Seq<(Seq<char>, Json)> {
    match options.tool_runtime {
        Some(runtime) => inserted(
            entries(options.manifest.extensions@),
            reserved_extension(),
            object(
                Seq::empty().push(
                    (
                        "toolRuntime"@,
                        object(
                            Seq::empty().push(("arch"@, Json::String(runtime.target_arch@))).push(
                                ("os"@, Json::String(runtime.target_os@)),
                            ).push(
                                ("path"@, Json::String("./bin/"@ + runtime_file(runtime))),
                            ).push(("shellCommand"@, Json::String(runtime.shell_command@))),
                        ),
                    ),
                ),
            ),
        ),
        None => entries(options.manifest.extensions@),
    }
}

/// The entries of a manifest.
pub open spec fn manifest_pairs(options: AgentPluginPublisherOptions) -> Seq<(Seq<char>, Json)> {
    let m = options.manifest;
    let a = Seq::empty().push(
        (
            "$schema"@,
            Json::String("https://agent-plugins.org/schemas/1.0.0/plugin.schema.json"@),
        ),
    ).push(("name"@, Json::String(m.name@)));
    let b = with_some(a, "version"@, opt_string(opt_text(m.version)));
    let c = with_some(b, "description"@, opt_string(opt_text(m.description)));
    let d = with_some(
        c,
        "author"@,
        match m.author {
            Some(author) => Some(author_json(author)),
            None => None,
        },
    );
    let e = with_some(d, "homepage"@, opt_string(opt_text(m.homepage)));
    let f = with_some(e, "repository"@, opt_string(opt_text(m.repository)));
    let g = with_some(f, "license"@, opt_string(opt_text(m.license)));
    let h = with_some(g, "keywords"@, if_any(texts(m.keywords@), strings(texts(m.keywords@))));
    with_some(
        h,
        "extensions"@,
        if_any(all_extensions(options), Json::Object(all_extensions(options))),
    )
}

/// The manifest of a package.
pub open spec fn manifest_json(options: AgentPluginPublisherOptions) -> Json {
    canonical(object(manifest_pairs(options)))
}

fn author_value(author: &AgentPluginAuthor) -> (r: Value)
    ensures
        r@ == author_json(*author),
{
    broadcast use {lemma_collected_push, lemma_object_view};

    let mut value = new_object();
    if let Some(name) = &author.name {
        put(&mut value, "name", string_value(name.as_str()));
    }
    if let Some(email) = &author.email {
        put(&mut value, "email", string_value(email.as_str()));
    }
    if let Some(url) = &author.url {
        put(&mut value, "url", string_value(url.as_str()));
    }
    Value::Object(value)
}

/// Gives the file name of the tool runtime.
pub fn tool_runtime_file_name(runtime: &AgentPluginToolRuntimeOptions) -> (r: String)
    ensures
        r@ == runtime_file(*runtime),
{
    if same(runtime.target_os.as_str(), "windows") {
        cat(runtime.shell_command.as_str(), ".exe")
    } else {
        runtime.shell_command.clone()
    }
}

fn extensions_of(options: &AgentPluginPublisherOptions) -> (r: Vec<(String, Value)>)
    ensures
        entries(r@) == all_extensions(*options),
{
    broadcast use {lemma_collected_push, lemma_object_view};

    let mut extensions = copy_entries(&options.manifest.extensions);
    if let Some(runtime) = &options.tool_runtime {
        let mut inner = new_object();
        put(&mut inner, "arch", string_value(runtime.target_arch.as_str()));
        put(&mut inner, "os", string_value(runtime.target_os.as_str()));
        put(
            &mut inner,
            "path",
            Value::String(cat("./bin/", tool_runtime_file_name(runtime).as_str())),
        );
        put(&mut inner, "shellCommand", string_value(runtime.shell_command.as_str()));
        let mut outer = new_object();
        put(&mut outer, "toolRuntime", Value::Object(inner));
        insert(&mut extensions, "io.github.douglance.incurs".to_string(), Value::Object(outer));
    }
    extensions
}

fn put_text(object: &mut Vec<(String, Value)>, key: &str, value: &Option<String>)
    ensures
        entries(final(object)@) == match opt_text(*value) {
            Some(text) => stored(entries(old(object)@), key@, Json::String(text)),
            None => entries(old(object)@),
        },
{
    if let Some(text) = value {
        put(object, key, string_value(text.as_str()));
    }
}

/// Makes the manifest of a package.
pub fn plugin_manifest(options: &AgentPluginPublisherOptions) -> (r: Value)
    ensures
        r@ == manifest_json(*options),
{
    broadcast use {lemma_collected_push, lemma_object_view};

    let m = &options.manifest;
    let mut manifest = new_object();
    put(
        &mut manifest,
        "$schema",
        string_value("https://agent-plugins.org/schemas/1.0.0/plugin.schema.json"),
    );
    put(&mut manifest, "name", string_value(m.name.as_str()));
    put_text(&mut manifest, "version", &m.version);
    put_text(&mut manifest, "description", &m.description);
    if let Some(author) = &m.author {
        put(&mut manifest, "author", author_value(author));
    }
    put_text(&mut manifest, "homepage", &m.homepage);
    put_text(&mut manifest, "repository", &m.repository);
    put_text(&mut manifest, "license", &m.license);
    if m.keywords.len() > 0 {
        put(&mut manifest, "keywords", strings_value(&m.keywords));
    }
    let extensions = extensions_of(options);
    if extensions.len() > 0 {
        put(&mut manifest, "extensions", Value::Object(extensions));
    }
    canonicalize(&Value::Object(manifest))
}

/// The servers of a package as a value.
pub open spec fn servers_json(all: Seq<(Seq<char>, Server)>) -> Json {
    canonical(
        object(
            Seq::empty().push(
                (
                    "$schema"@,
                    Json::String("https://agent-plugins.org/schemas/1.0.0/mcp.schema.json"@),
                ),
            ).push(
                (
                    "mcpServers"@,
                    object(all.map_values(|e: (Seq<char>, Server)| (e.0, server_json(e.1)))),
                ),
            ),
        ),
    )
}

/// Makes a value of the servers of a package.
pub fn mcp_json(all: &Vec<(String, AgentPluginMcpServerConfig)>) -> (r: Value)
    ensures
        r@ == servers_json(servers(all@)),
{
    broadcast use {lemma_collected_push, lemma_object_view};

    let ghost want = servers(all@).map_values(|e: (Seq<char>, Server)| (e.0, server_json(e.1)));
    let mut inner = new_object();
    let mut i: usize = 0;
    assert(want.take(0) =~= Seq::empty());
    while i < all.len()
        invariant
            i <= all@.len(),
            want == servers(all@).map_values(|e: (Seq<char>, Server)| (e.0, server_json(e.1))),
            entries(inner@) == collected(want.take(i as int)),
        decreases all.len() - i,
    {
        assert(want.take(i + 1).drop_last() =~= want.take(i as int));
        assert(want.take(i + 1).last() == (all@[i as int].0@, server_json(all@[i as int].1@)));
        store(&mut inner, all[i].0.clone(), mcp_server_json(&all[i].1));
        i += 1;
    }
    assert(want.take(want.len() as int) =~= want);
    let mut outer = new_object();
    put(
        &mut outer,
        "$schema",
        string_value("https://agent-plugins.org/schemas/1.0.0/mcp.schema.json"),
    );
    put(&mut outer, "mcpServers", Value::Object(inner));
    canonicalize(&Value::Object(outer))
}

// ---------------------------------------------------------------------------
// The files of a package
// ---------------------------------------------------------------------------

/// A file of a package.
#[derive(Debug)]
pub enum PlannedFile {
    /// A value written as JSON.
    Json {
        /// Path below the root of the package.
        path: String,
        /// The value.
        value: Value,
    },
    /// A text.
    Text {
        /// Path below the root of the package.
        path: String,
        /// The text.
        content: String,
    },
    /// A copy of another file.
    Copy {
        /// Path below the root of the package.
        path: String,
        /// The other file.
        source: String,
    },
}

/// What a [`PlannedFile`] means.
pub enum Planned {
    /// A value written as JSON.
    Json(Seq<char>, Json),
    /// A text.
    Text(Seq<char>, Seq<char>),
    /// A copy of another file.
    Copy(Seq<char>, Seq<char>),
}

impl View for PlannedFile {
    type V = Planned;

    open spec fn view(&self) -> Planned {
        match *self {
            PlannedFile::Json { path, value } => Planned::Json(path@, value@),
            PlannedFile::Text { path, content } => Planned::Text(path@, content@),
            PlannedFile::Copy { path, source } => Planned::Copy(path@, source@),
        }
    }
}

/// What planned files mean.
pub open spec fn planned(v: Seq<PlannedFile>) -> Seq<Planned> {
    v.map_values(|f: PlannedFile| f@)
}

/// The path of a file of a skill.
pub open spec fn skill_path(skill: Seq<char>, file: Seq<char>) -> Seq<char> {
    "skills/"@ + skill + "/"@ + file
}

fn path_in_skill(skill: &str, file: &str) -> (r: String)
    ensures
        r@ == skill_path(skill@, file@),
{
    let mut out = cat3("skills/", skill, "/");
    out.append(file);
    out
}

/// The key by which the files of a skill are ordered: step by step.
pub open spec fn path_key(path: Seq<char>) -> Seq<char> {
    replaced(path, "/"@, "\0"@)
}

/// The files of an authored skill, in the order of their paths.
pub open spec fn authored_files(skill: AuthoredSkill) -> Seq<Planned> {
    ordered(
        skill.files@.map_values(
            |f: AuthoredSkillFile|
                (
                    path_key(f.relative@),
                    Planned::Copy(skill_path(skill.name@, f.relative@), f.source@),
                ),
        ),
    ).map_values(|e: (Seq<char>, Planned)| e.1)
}

/// The files of authored skills.
pub open spec fn all_authored_files(skills: Seq<AuthoredSkill>) -> Seq<Planned>
    decreases skills.len(),
{
    if skills.len() == 0 {
        Seq::empty()
    } else {
        all_authored_files(skills.drop_last()) + authored_files(skills.last())
    }
}

/// The files of a package, in the order in which they are written: the manifest,
/// the generated skills, the authored skills, the tool runtime and the servers.
pub open spec fn package_files(
    options: AgentPluginPublisherOptions,
    all: Seq<(Seq<char>, Server)>,
    generated: Seq<SkillFile>,
    authored: Seq<AuthoredSkill>,
) -> Seq<Planned> {
    let a = seq![Planned::Json("plugin.json"@, manifest_json(options))];
    let b = a + generated.map_values(
        |f: SkillFile| Planned::Text(skill_path(f.dir@, "SKILL.md"@), f.content@ + "\n"@),
    );
    let c = b + all_authored_files(authored);
    let d = match options.tool_runtime {
        Some(runtime) => c.push(Planned::Copy("bin/"@ + runtime_file(runtime), runtime.source@)),
        None => c,
    };
    if all.len() == 0 {
        d
    } else {
        d.push(Planned::Json("mcp.json"@, servers_json(all)))
    }
}

fn push_generated(out: &mut Vec<PlannedFile>, generated: &Vec<SkillFile>)
    ensures
        planned(final(out)@) == planned(old(out)@) + generated@.map_values(
            |f: SkillFile| Planned::Text(skill_path(f.dir@, "SKILL.md"@), f.content@ + "\n"@),
        ),
{
    let ghost start = planned(out@);
    let ghost want = generated@.map_values(
        |f: SkillFile| Planned::Text(skill_path(f.dir@, "SKILL.md"@), f.content@ + "\n"@),
    );
    let mut i: usize = 0;
    assert(planned(out@) =~= start + want.take(0));
    while i < generated.len()
        invariant
            i <= generated@.len(),
            want == generated@.map_values(
                |f: SkillFile| Planned::Text(skill_path(f.dir@, "SKILL.md"@), f.content@ + "\n"@),
            ),
            planned(out@) == start + want.take(i as int),
        decreases generated.len() - i,
    {
        let ghost was = planned(out@);
        let file = PlannedFile::Text {
            path: path_in_skill(generated[i].dir.as_str(), "SKILL.md"),
            content: cat(generated[i].content.as_str(), "\n"),
        };
        assert(file@ == want[i as int]);
        out.push(file);
        assert(planned(out@) =~= was.push(want[i as int]));
        assert(start + want.take(i + 1) =~= (start + want.take(i as int)).push(want[i as int]));
        i += 1;
    }
    assert(want.take(want.len() as int) =~= want);
}

spec fn keyed_files(skill: AuthoredSkill) -> Seq<(Seq<char>, Planned)> {
    skill.files@.map_values(
        |f: AuthoredSkillFile|
            (
                path_key(f.relative@),
                Planned::Copy(skill_path(skill.name@, f.relative@), f.source@),
            ),
    )
}

fn push_authored(out: &mut Vec<PlannedFile>, skill: &AuthoredSkill)
    ensures
        planned(final(out)@) == planned(old(out)@) + authored_files(*skill),
{
    let ghost want = keyed_files(*skill);
    let mut list: Vec<(String, PlannedFile)> = Vec::new();
    let mut i: usize = 0;
    proof {
        reveal_strlit("/");
    }
    while i < skill.files.len()
        invariant
            i <= skill.files@.len(),
            "/"@.len() > 0,
            want == keyed_files(*skill),
            mapped(keyed(list@), |f: PlannedFile| f@) == want.take(i as int),
        decreases skill.files.len() - i,
    {
        let ghost was = mapped(keyed(list@), |f: PlannedFile| f@);
        let key = replace(skill.files[i].relative.as_str(), "/", "\0");
        let file = PlannedFile::Copy {
            path: path_in_skill(skill.name.as_str(), skill.files[i].relative.as_str()),
            source: skill.files[i].source.clone(),
        };
        assert((key@, file@) == want[i as int]);
        list.push((key, file));
        assert(mapped(keyed(list@), |f: PlannedFile| f@) =~= was.push(want[i as int]));
        assert(want.take(i + 1) =~= want.take(i as int).push(want[i as int]));
        i += 1;
    }
    assert(want.take(want.len() as int) =~= want);
    let ghost listed = keyed(list@);
    let mut sorted = table::sort(list);
    proof {
        table::lemma_ordered_mapped(listed, |f: PlannedFile| f@);
    }
    let ghost files = ordered(want).map_values(|e: (Seq<char>, Planned)| e.1);
    assert(files == authored_files(*skill));
    let ghost start = planned(out@);
    let ghost all = mapped(keyed(sorted@), |f: PlannedFile| f@);
    assert(all == ordered(want));
    let n: usize = sorted.len();
    let mut k: usize = 0;
    assert(all.skip(0) =~= all);
    assert(planned(out@) =~= start + files.take(0));
    while k < n
        invariant
            k <= n,
            n == all.len(),
            n == files.len(),
            files == all.map_values(|e: (Seq<char>, Planned)| e.1),
            mapped(keyed(sorted@), |f: PlannedFile| f@) == all.skip(k as int),
            planned(out@) == start + files.take(k as int),
        decreases n - k,
    {
        let ghost was = planned(out@);
        let ghost rest = mapped(keyed(sorted@), |f: PlannedFile| f@);
        assert(rest.len() == sorted@.len());
        assert(rest[0] == all[k as int]);
        assert(rest[0].1 == sorted@[0].1@);
        let (_, file) = sorted.remove(0);
        assert(mapped(keyed(sorted@), |f: PlannedFile| f@) =~= rest.skip(1));
        assert(all.skip(k as int).skip(1) =~= all.skip(k + 1));
        assert(file@ == files[k as int]);
        out.push(file);
        assert(planned(out@) =~= was.push(files[k as int]));
        assert(start + files.take(k + 1) =~= (start + files.take(k as int)).push(
            files[k as int],
        ));
        k += 1;
    }
    assert(files.take(files.len() as int) =~= files);
}

/// Plans the files of a package. `all` are the servers that it binds.
pub fn plan_package(
    options: &AgentPluginPublisherOptions,
    all: &Vec<(String, AgentPluginMcpServerConfig)>,
    generated: &Vec<SkillFile>,
    authored: &Vec<AuthoredSkill>,
) -> (r: Vec<PlannedFile>)
    ensures
        planned(r@) == package_files(*options, servers(all@), generated@, authored@),
{
    let mut out: Vec<PlannedFile> = Vec::new();
    out.push(
        PlannedFile::Json { path: "plugin.json".to_string(), value: plugin_manifest(options) },
    );
    assert(planned(out@) =~= seq![Planned::Json("plugin.json"@, manifest_json(*options))]);
    push_generated(&mut out, generated);
    let ghost base = planned(out@);
    let mut i: usize = 0;
    assert(base + all_authored_files(authored@.take(0)) =~= base);
    while i < authored.len()
        invariant
            i <= authored@.len(),
            planned(out@) == base + all_authored_files(authored@.take(i as int)),
        decreases authored.len() - i,
    {
        assert(authored@.take(i + 1).drop_last() =~= authored@.take(i as int));
        push_authored(&mut out, &authored[i]);
        assert(planned(out@) =~= base + all_authored_files(authored@.take(i + 1)));
        i += 1;
    }
    assert(authored@.take(authored@.len() as int) =~= authored@);
    if let Some(runtime) = &options.tool_runtime {
        let ghost was = planned(out@);
        let file = PlannedFile::Copy {
            path: cat("bin/", tool_runtime_file_name(runtime).as_str()),
            source: runtime.source.clone(),
        };
        let ghost next = file@;
        out.push(file);
        assert(planned(out@) =~= was.push(next));
    }
    if all.len() > 0 {
        let ghost was = planned(out@);
        let file = PlannedFile::Json { path: "mcp.json".to_string(), value: mcp_json(all) };
        let ghost next = file@;
        out.push(file);
        assert(planned(out@) =~= was.push(next));
    }
    out
}

// ---------------------------------------------------------------------------
// Laws
// ---------------------------------------------------------------------------

/// The canonical form is its own canonical form.
pub proof fn law_canonical_is_idempotent(v: Json)
    ensures
        canonical(canonical(v)) == canonical(v),
    decreases v,
{
    match v {
        Json::Array(items) => {
            lemma_canonical(items, Seq::empty());
            lemma_canonical(all_canonical(items), Seq::empty());
            assert forall|i: int| 0 <= i < items.len() implies canonical(canonical(items[i]))
                == canonical(#[trigger] items[i]) by {
                law_canonical_is_idempotent(items[i]);
            }
            assert(all_canonical(all_canonical(items)) =~= all_canonical(items));
        },
        Json::Object(fields) => {
            let once = canonical_entries(fields);
            lemma_canonical(Seq::empty(), fields);
            lemma_canonical(Seq::empty(), ordered(once));
            assert forall|i: int| 0 <= i < fields.len() implies canonical(canonical(fields[i].1))
                == canonical((#[trigger] fields[i]).1) by {
                law_canonical_is_idempotent(fields[i].1);
            }
            assert(canonical_entries(once) =~= once);
            assert(canonical_entries(once) == mapped(once, |x: Json| canonical(x)));
            table::lemma_ordered_mapped(once, |x: Json| canonical(x));
            assert(canonical_entries(ordered(once)) == mapped(
                ordered(once),
                |x: Json| canonical(x),
            ));
            lemma_ordered(once);
            table::lemma_in_order_is_ordered(ordered(once));
        },
        _ => {},
    }
}

/// The keys of an object in canonical form are in order.
pub proof fn law_canonical_keys_are_in_order(fields: Seq<(Seq<char>, Json)>)
    ensures
        canonical(Json::Object(fields)) matches Json::Object(sorted) && in_order(sorted),
{
    lemma_canonical(Seq::empty(), fields);
    lemma_ordered(canonical_entries(fields));
}

/// The manifest is the first file of every package, and the servers are in the
/// last one where there are any.
pub proof fn law_package_begins_with_manifest(
    options: AgentPluginPublisherOptions,
    all: Seq<(Seq<char>, Server)>,
    generated: Seq<SkillFile>,
    authored: Seq<AuthoredSkill>,
)
    ensures
        package_files(options, all, generated, authored).len() > 0,
        package_files(options, all, generated, authored)[0] == Planned::Json(
            "plugin.json"@,
            manifest_json(options),
        ),
        all.len() > 0 ==> package_files(options, all, generated, authored).last()
            == Planned::Json("mcp.json"@, servers_json(all)),
{
}

/// The extensions of a manifest are sound exactly where each has a namespace for its name
/// and is an object.
pub proof fn law_extensions_are_named_objects(extensions: Seq<(Seq<char>, Json)>, from: nat)
    ensures
        extensions_fault(extensions, from) is None <==> forall|i: int|
            from <= i < extensions.len() ==> extension_namespace((#[trigger] extensions[i]).0)
                && extensions[i].1 is Object,
    decreases extensions.len() - from,
{
    if from < extensions.len() {
        let (namespace, value) = extensions[from as int];
        if extension_namespace(namespace) && value is Object {
            law_extensions_are_named_objects(extensions, from + 1);
        } else {
            assert(extensions[from as int] == (namespace, value));
        }
    }
}

/// The servers of a plugin are those that were given and, under the name of the plugin,
/// the one that was given alone.
pub proof fn law_servers_are_bound(options: AgentPluginPublisherOptions, other: Seq<char>)
    ensures
        options.tools.mcp_server is None ==> bound_servers(options) == servers(
            options.tools.mcp_servers@,
        ),
        options.tools.mcp_server matches Some(server) ==> (lookup(
            bound_servers(options),
            options.manifest.name@,
        ) matches Some(Server::Stdio { command, args, env, cwd }) && command == server.command@
            && args == texts(server.args@) && env.len() == 0 && cwd is None),
        other != options.manifest.name@ ==> lookup(bound_servers(options), other) == lookup(
            servers(options.tools.mcp_servers@),
            other,
        ),
{
    if let Some(server) = options.tools.mcp_server {
        let all = servers(options.tools.mcp_servers@);
        lemma_lookup_inserted(all, options.manifest.name@, bare_server(server), other);
        lemma_lookup_inserted(
            all,
            options.manifest.name@,
            bare_server(server),
            options.manifest.name@,
        );
    }
}

/// Servers are sound exactly where each has a name without white space and is sound
/// itself.
pub proof fn law_bound_servers_are_sound(all: Seq<(Seq<char>, Server)>, from: nat)
    ensures
        all_servers_fault(all, from) is None <==> forall|i: int|
            from <= i < all.len() ==> (#[trigger] all[i]).0.len() > 0 && !holds_white_space(
                all[i].0,
            ) && server_fault(all[i].1) is None,
    decreases all.len() - from,
{
    if from < all.len() && named_fault(all[from as int].0, all[from as int].1) is None {
        law_bound_servers_are_sound(all, from + 1);
    }
}

/// Options are taken exactly where the name, the extensions and the servers are sound and
/// the tool runtime, if there is one, can be published.
pub proof fn law_sound_options_are_taken(options: AgentPluginPublisherOptions)
    ensures
        ({
            let extensions = entries(options.manifest.extensions@);
            options_fault(options) is None <==> {
                &&& plugin_name(options.manifest.name@)
                &&& forall|i: int|
                    0 <= i < extensions.len() ==> extension_namespace((#[trigger] extensions[i]).0)
                        && extensions[i].1 is Object
                &&& options.tools.mcp_server matches Some(server) ==> mcp_command(server.command@)
                    && lookup(servers(options.tools.mcp_servers@), options.manifest.name@) is None
                &&& ({
                    let all = bound_servers(options);
                    forall|i: int|
                        0 <= i < all.len() ==> (#[trigger] all[i]).0.len() > 0
                            && !holds_white_space(all[i].0) && server_fault(all[i].1) is None
                })
                &&& options.tool_runtime matches Some(runtime) ==> {
                    &&& lookup(extensions, "io.github.douglance.incurs"@) is None
                    &&& mcp_command(runtime.shell_command@)
                    &&& !"./"@.is_prefix_of(runtime.shell_command@)
                    &&& !".exe"@.is_suffix_of(runtime.shell_command@)
                    &&& runtime.target_os@ == "linux"@ || runtime.target_os@ == "macos"@
                        || runtime.target_os@ == "windows"@
                    &&& runtime.target_arch@ == "x86_64"@ || runtime.target_arch@ == "aarch64"@
                }
            }
        }),
{
    law_extensions_are_named_objects(entries(options.manifest.extensions@), 0);
    law_bound_servers_are_sound(bound_servers(options), 0);
}

/// The file of the runtime is named after its command, with the ending that the target
/// wants.
pub proof fn law_runtimes_are_named_for_their_target(runtime: AgentPluginToolRuntimeOptions)
    ensures
        runtime.target_os@ == "windows"@ ==> runtime_file(runtime) == runtime.shell_command@
            + ".exe"@,
        runtime.target_os@ != "windows"@ ==> runtime_file(runtime) == runtime.shell_command@,
{
}

/// Putting a value in canonical form moves its fields only: each is still found under its
/// key, in canonical form itself, and items stay in their places.
pub proof fn law_canonical_form_keeps_everything(
    fields: Seq<(Seq<char>, Json)>,
    items: Seq<Json>,
    key: Seq<char>,
    i: int,
)
    requires
        distinct(fields),
        0 <= i < items.len(),
    ensures
        canonical(Json::Object(fields)) matches Json::Object(all) && all.len() == fields.len() && (
        lookup(fields, key) is None ==> lookup(all, key) is None) && (lookup(
            fields,
            key,
        ) matches Some(value) ==> lookup(all, key) == Some(canonical(value))),
        canonical(Json::Array(items)) matches Json::Array(all) && all.len() == items.len()
            && all[i] == canonical(items[i]),
        canonical(Json::Null) == Json::Null,
        canonical(Json::String(key)) == Json::String(key),
        canonical(Json::Bool(true)) == Json::Bool(true),
        canonical(Json::Bool(false)) == Json::Bool(false),
{
    let each = each_canonical(fields);
    assert(keys(each) =~= keys(fields));
    lemma_ordered(each);
    lemma_lookup_ordered(each, key);
    crate::table::lemma_position_from(keys(fields), key, 0);
}

/// A package holds every generated skill under its directory, every authored file, the
/// runtime where there is one, and the servers where there are any.
pub proof fn law_packages_hold_all_files(
    options: AgentPluginPublisherOptions,
    all: Seq<(Seq<char>, Server)>,
    generated: Seq<SkillFile>,
    authored: Seq<AuthoredSkill>,
    i: int,
)
    ensures
        ({
            let files = package_files(options, all, generated, authored);
            let n = generated.len() + all_authored_files(authored).len();
            &&& 0 <= i < generated.len() ==> files[1 + i] == Planned::Text(
                "skills/"@ + generated[i].dir@ + "/"@ + "SKILL.md"@,
                generated[i].content@ + "\n"@,
            )
            &&& 0 <= i < all_authored_files(authored).len() ==> files[1 + generated.len() + i]
                == all_authored_files(authored)[i]
            &&& options.tool_runtime matches Some(runtime) ==> files[1 + n as int] == Planned::Copy(
                "bin/"@ + runtime_file(runtime),
                runtime.source@,
            )
            &&& files.len() == 1 + n + (if options.tool_runtime is Some {
                1int
            } else {
                0
            }) + (if all.len() > 0 {
                1int
            } else {
                0
            })
        }),
{
}

/// The authored files of two lists of skills are those of the first and then those of the
/// second; of one skill every file is copied to the place below the name of the skill.
pub proof fn law_authored_files_are_copied(
    a: Seq<AuthoredSkill>,
    b: Seq<AuthoredSkill>,
    skill: AuthoredSkill,
    i: int,
)
    ensures
        all_authored_files(a + b) == all_authored_files(a) + all_authored_files(b),
        all_authored_files(seq![skill]).len() == skill.files@.len(),
        0 <= i < skill.files@.len() ==> all_authored_files(seq![skill]).contains(
            Planned::Copy(
                "skills/"@ + skill.name@ + "/"@ + skill.files@[i].relative@,
                skill.files@[i].source@,
            ),
        ),
    decreases b.len(),
{
    assert(seq![skill].drop_last() =~= Seq::empty());
    assert(all_authored_files(seq![skill].drop_last()) =~= Seq::empty());
    assert(all_authored_files(seq![skill]) =~= authored_files(skill));
    let pairs = skill.files@.map_values(
        |f: AuthoredSkillFile|
            (
                path_key(f.relative@),
                Planned::Copy(skill_path(skill.name@, f.relative@), f.source@),
            ),
    );
    lemma_ordered(pairs);
    if 0 <= i < skill.files@.len() {
        let sorted = ordered(pairs);
        pairs.to_multiset_ensures();
        sorted.to_multiset_ensures();
        assert(pairs.contains(pairs[i]));
        assert(pairs.to_multiset().count(pairs[i]) > 0);
        assert(sorted.contains(pairs[i]));
        let k = choose|k: int| 0 <= k < sorted.len() && sorted[k] == pairs[i];
        assert(authored_files(skill)[k] == pairs[i].1);
    }
    if b.len() == 0 {
        assert(a + b =~= a);
        assert(all_authored_files(a) + all_authored_files(b) =~= all_authored_files(a));
    } else {
        law_authored_files_are_copied(a, b.drop_last(), skill, i);
        assert((a + b).drop_last() =~= a + b.drop_last());
        assert((a + b).last() == b.last());
        assert(all_authored_files(a + b) =~= all_authored_files(a) + all_authored_files(b));
    }
}

/// The manifest holds the schema, the name and every part that was given.
pub proof fn law_manifests_hold_what_was_given(options: AgentPluginPublisherOptions)
    ensures
        ({
            let m = options.manifest;
            let value = object(manifest_pairs(options));
            &&& field(value, "$schema"@) == Some(
                Json::String("https://agent-plugins.org/schemas/1.0.0/plugin.schema.json"@),
            )
            &&& field(value, "name"@) == Some(Json::String(m.name@))
            &&& field(value, "version"@) == opt_string(opt_text(m.version))
            &&& field(value, "description"@) == opt_string(opt_text(m.description))
            &&& field(value, "homepage"@) == opt_string(opt_text(m.homepage))
            &&& field(value, "repository"@) == opt_string(opt_text(m.repository))
            &&& field(value, "license"@) == opt_string(opt_text(m.license))
            &&& m.author is None ==> field(value, "author"@) is None
            &&& m.author matches Some(author) ==> {
                &&& field(value, "author"@) matches Some(own)
                &&& field(own, "name"@) == opt_string(opt_text(author.name))
                &&& field(own, "email"@) == opt_string(opt_text(author.email))
                &&& field(own, "url"@) == opt_string(opt_text(author.url))
            }
            &&& m.keywords@.len() == 0 ==> field(value, "keywords"@) is None
            &&& m.keywords@.len() > 0 ==> field(value, "keywords"@) == Some(
                strings(texts(m.keywords@)),
            )
            &&& all_extensions(options).len() == 0 ==> field(value, "extensions"@) is None
            &&& all_extensions(options).len() > 0 ==> field(value, "extensions"@) == Some(
                Json::Object(all_extensions(options)),
            )
        }),
{
    lemma_manifest_keys();
    lemma_manifest_field(options, "$schema"@);
    lemma_manifest_field(options, "name"@);
    lemma_manifest_field(options, "version"@);
    lemma_manifest_field(options, "description"@);
    lemma_manifest_field(options, "author"@);
    lemma_manifest_field(options, "homepage"@);
    lemma_manifest_field(options, "repository"@);
    lemma_manifest_field(options, "license"@);
    lemma_manifest_field(options, "keywords"@);
    lemma_manifest_field(options, "extensions"@);
    if let Some(author) = options.manifest.author {
        lemma_author_fields(author);
    }
}

/// What an object holds once an entry may have been added to it.
proof fn lemma_with_some_found(
    pairs: Seq<(Seq<char>, Json)>,
    key: Seq<char>,
    value: Option<Json>,
    other: Seq<char>,
)
    ensures
        lookup(collected(with_some(pairs, key, value)), other) == (if other == key && value is Some {
            value
        } else {
            lookup(collected(pairs), other)
        }),
{
    broadcast use lemma_collected_found;

}

proof fn lemma_author_fields(author: AgentPluginAuthor)
    ensures
        field(author_json(author), "name"@) == opt_string(opt_text(author.name)),
        field(author_json(author), "email"@) == opt_string(opt_text(author.email)),
        field(author_json(author), "url"@) == opt_string(opt_text(author.url)),
{
    broadcast use {lemma_collected_found, lemma_nothing_collected};

    lemma_manifest_keys();
}

/// What a manifest holds under a key.
proof fn lemma_manifest_field(options: AgentPluginPublisherOptions, key: Seq<char>)
    ensures
        ({
            let m = options.manifest;
            let author = match m.author {
                Some(author) => Some(author_json(author)),
                None => None,
            };
            let keywords = if_any(texts(m.keywords@), strings(texts(m.keywords@)));
            let extensions = if_any(all_extensions(options), Json::Object(all_extensions(options)));
            field(object(manifest_pairs(options)), key) == (if key == "extensions"@
                && extensions is Some {
                extensions
            } else if key == "keywords"@ && keywords is Some {
                keywords
            } else if key == "license"@ && m.license is Some {
                opt_string(opt_text(m.license))
            } else if key == "repository"@ && m.repository is Some {
                opt_string(opt_text(m.repository))
            } else if key == "homepage"@ && m.homepage is Some {
                opt_string(opt_text(m.homepage))
            } else if key == "author"@ && author is Some {
                author
            } else if key == "description"@ && m.description is Some {
                opt_string(opt_text(m.description))
            } else if key == "version"@ && m.version is Some {
                opt_string(opt_text(m.version))
            } else if key == "name"@ {
                Some(Json::String(m.name@))
            } else if key == "$schema"@ {
                Some(
                    Json::String("https://agent-plugins.org/schemas/1.0.0/plugin.schema.json"@),
                )
            } else {
                None
            })
        }),
{
    let m = options.manifest;
    let schema = (
        "$schema"@,
        Json::String("https://agent-plugins.org/schemas/1.0.0/plugin.schema.json"@),
    );
    let none = Seq::<(Seq<char>, Json)>::empty();
    let a = none.push(schema).push(("name"@, Json::String(m.name@)));
    let author = match m.author {
        Some(author) => Some(author_json(author)),
        None => None,
    };
    let keywords = if_any(texts(m.keywords@), strings(texts(m.keywords@)));
    let extensions = if_any(all_extensions(options), Json::Object(all_extensions(options)));
    let b = with_some(a, "version"@, opt_string(opt_text(m.version)));
    let c = with_some(b, "description"@, opt_string(opt_text(m.description)));
    let d = with_some(c, "author"@, author);
    let e = with_some(d, "homepage"@, opt_string(opt_text(m.homepage)));
    let f = with_some(e, "repository"@, opt_string(opt_text(m.repository)));
    let g = with_some(f, "license"@, opt_string(opt_text(m.license)));
    let h = with_some(g, "keywords"@, keywords);
    assert(manifest_pairs(options) == with_some(h, "extensions"@, extensions));
    lemma_nothing_collected(key);
    lemma_collected_found(none, schema, key);
    lemma_collected_found(none.push(schema), ("name"@, Json::String(m.name@)), key);
    lemma_with_some_found(a, "version"@, opt_string(opt_text(m.version)), key);
    lemma_with_some_found(b, "description"@, opt_string(opt_text(m.description)), key);
    lemma_with_some_found(c, "author"@, author, key);
    lemma_with_some_found(d, "homepage"@, opt_string(opt_text(m.homepage)), key);
    lemma_with_some_found(e, "repository"@, opt_string(opt_text(m.repository)), key);
    lemma_with_some_found(f, "license"@, opt_string(opt_text(m.license)), key);
    lemma_with_some_found(g, "keywords"@, keywords, key);
    lemma_with_some_found(h, "extensions"@, extensions, key);
}

/// The keys of a manifest differ.
proof fn lemma_manifest_keys()
    ensures
        "$schema"@ != "name"@,
        "$schema"@ != "version"@,
        "$schema"@ != "description"@,
        "$schema"@ != "author"@,
        "$schema"@ != "homepage"@,
        "$schema"@ != "repository"@,
        "$schema"@ != "license"@,
        "$schema"@ != "keywords"@,
        "$schema"@ != "extensions"@,
        "$schema"@ != "email"@,
        "$schema"@ != "url"@,
        "name"@ != "version"@,
        "name"@ != "description"@,
        "name"@ != "author"@,
        "name"@ != "homepage"@,
        "name"@ != "repository"@,
        "name"@ != "license"@,
        "name"@ != "keywords"@,
        "name"@ != "extensions"@,
        "name"@ != "email"@,
        "name"@ != "url"@,
        "version"@ != "description"@,
        "version"@ != "author"@,
        "version"@ != "homepage"@,
        "version"@ != "repository"@,
        "version"@ != "license"@,
        "version"@ != "keywords"@,
        "version"@ != "extensions"@,
        "version"@ != "email"@,
        "version"@ != "url"@,
        "description"@ != "author"@,
        "description"@ != "homepage"@,
        "description"@ != "repository"@,
        "description"@ != "license"@,
        "description"@ != "keywords"@,
        "description"@ != "extensions"@,
        "description"@ != "email"@,
        "description"@ != "url"@,
        "author"@ != "homepage"@,
        "author"@ != "repository"@,
        "author"@ != "license"@,
        "author"@ != "keywords"@,
        "author"@ != "extensions"@,
        "author"@ != "email"@,
        "author"@ != "url"@,
        "homepage"@ != "repository"@,
        "homepage"@ != "license"@,
        "homepage"@ != "keywords"@,
        "homepage"@ != "extensions"@,
        "homepage"@ != "email"@,
        "homepage"@ != "url"@,
        "repository"@ != "license"@,
        "repository"@ != "keywords"@,
        "repository"@ != "extensions"@,
        "repository"@ != "email"@,
        "repository"@ != "url"@,
        "license"@ != "keywords"@,
        "license"@ != "extensions"@,
        "license"@ != "email"@,
        "license"@ != "url"@,
        "keywords"@ != "extensions"@,
        "keywords"@ != "email"@,
        "keywords"@ != "url"@,
        "extensions"@ != "email"@,
        "extensions"@ != "url"@,
        "email"@ != "url"@,
{
    reveal_strlit("$schema");
    reveal_strlit("name");
    reveal_strlit("version");
    reveal_strlit("description");
    reveal_strlit("author");
    reveal_strlit("homepage");
    reveal_strlit("repository");
    reveal_strlit("license");
    reveal_strlit("keywords");
    reveal_strlit("extensions");
    reveal_strlit("email");
    reveal_strlit("url");
    assert("$schema"@.len() == 7);
    assert("name"@.len() == 4);
    assert("version"@.len() == 7);
    assert("description"@.len() == 11);
    assert("author"@.len() == 6);
    assert("homepage"@.len() == 8);
    assert("repository"@.len() == 10);
    assert("license"@.len() == 7);
    assert("keywords"@.len() == 8);
    assert("extensions"@.len() == 10);
    assert("email"@.len() == 5);
    assert("url"@.len() == 3);
    assert("$schema"@[0] == '$');
    assert("extensions"@[0] == 'e');
    assert("homepage"@[0] == 'h');
    assert("keywords"@[0] == 'k');
    assert("license"@[0] == 'l');
    assert("repository"@[0] == 'r');
    assert("version"@[0] == 'v');
}

/// The extensions are those given and, where there is a tool runtime, its own, which tells
/// where the runtime is and what it is for.
pub proof fn law_runtimes_are_told_of(options: AgentPluginPublisherOptions, other: Seq<char>)
    ensures
        options.tool_runtime is None ==> all_extensions(options) == entries(
            options.manifest.extensions@,
        ),
        other != "io.github.douglance.incurs"@ ==> lookup(all_extensions(options), other) == lookup(
            entries(options.manifest.extensions@),
            other,
        ),
        options.tool_runtime matches Some(runtime) ==> {
            &&& lookup(all_extensions(options), "io.github.douglance.incurs"@) matches Some(own)
            &&& field(own, "toolRuntime"@) matches Some(told)
            &&& field(told, "os"@) == Some(Json::String(runtime.target_os@))
            &&& field(told, "arch"@) == Some(Json::String(runtime.target_arch@))
            &&& field(told, "path"@) == Some(Json::String("./bin/"@ + runtime_file(runtime)))
            &&& field(told, "shellCommand"@) == Some(Json::String(runtime.shell_command@))
        },
{
    broadcast use {lemma_collected_found, lemma_nothing_collected};

    lemma_runtime_keys();
    if let Some(runtime) = options.tool_runtime {
        let own = lookup(all_extensions(options), reserved_extension());
        let base = entries(options.manifest.extensions@);
        let added = object(
            Seq::empty().push(
                (
                    "toolRuntime"@,
                    object(
                        Seq::empty().push(("arch"@, Json::String(runtime.target_arch@))).push(
                            ("os"@, Json::String(runtime.target_os@)),
                        ).push(("path"@, Json::String("./bin/"@ + runtime_file(runtime)))).push(
                            ("shellCommand"@, Json::String(runtime.shell_command@)),
                        ),
                    ),
                ),
            ),
        );
        lemma_lookup_inserted(base, reserved_extension(), added, reserved_extension());
        lemma_lookup_inserted(base, reserved_extension(), added, other);
        assert(own == Some(added));
    }
}

/// The keys of a tool runtime differ.
proof fn lemma_runtime_keys()
    ensures
        "toolRuntime"@ != "os"@,
        "toolRuntime"@ != "arch"@,
        "toolRuntime"@ != "path"@,
        "toolRuntime"@ != "shellCommand"@,
        "os"@ != "arch"@,
        "os"@ != "path"@,
        "os"@ != "shellCommand"@,
        "arch"@ != "path"@,
        "arch"@ != "shellCommand"@,
        "path"@ != "shellCommand"@,
{
    reveal_strlit("toolRuntime");
    reveal_strlit("os");
    reveal_strlit("arch");
    reveal_strlit("path");
    reveal_strlit("shellCommand");
    assert("toolRuntime"@.len() == 11);
    assert("os"@.len() == 2);
    assert("arch"@.len() == 4);
    assert("path"@.len() == 4);
    assert("shellCommand"@.len() == 12);
    assert("arch"@[0] == 'a');
    assert("path"@[0] == 'p');
}

} // verus!
