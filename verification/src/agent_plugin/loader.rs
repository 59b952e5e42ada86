//! Loader for portable Agent Plugins 1.0 directories.

use vstd::prelude::*;
use crate::agent_plugin::loader::manifest::{
    manifest_findings, manifest_view, parse_manifest, read_manifest, AgentPluginManifest, Manifest,
};
use crate::agent_plugin::loader::servers::{
    bindings_view, listed_servers, load_mcp_servers, loaded_bindings, servers_findings,
    AgentPluginMcpServer, Binding, ServerPaths,
};
use crate::agent_plugin::loader::skills::{
    load_skills, loaded_skills, named_skills, skills_findings, LoadedAgentPluginSkill, Skill,
    SkillsFound,
};
use crate::agent_plugin::paths::{is_within, normalize_absolute, normalized, within};
use crate::text::{cat, opt_text};
use crate::value::{entries, Json, Value};

pub mod manifest;
pub mod servers;
pub mod skills;

verus! {

/// Canonical Agent Plugins 1.0 manifest schema identifier.
pub const AGENT_PLUGIN_SCHEMA: &'static str =
    "https://agent-plugins.org/schemas/1.0.0/plugin.schema.json";

/// Canonical Agent Plugins 1.0 MCP schema identifier.
pub const AGENT_PLUGIN_MCP_SCHEMA: &'static str =
    "https://agent-plugins.org/schemas/1.0.0/mcp.schema.json";

/// MCP transport kind used by Agent Plugins.
#[derive(Debug, Clone, Copy, PartialEq, Eq, Structural, PartialOrd, Ord)]
pub enum AgentPluginMcpTransport {
    /// Local subprocess stdio transport.
    Stdio,
    /// Current Streamable HTTP transport.
    StreamableHttp,
    /// Legacy HTTP+SSE transport.
    Sse,
}

impl AgentPluginMcpTransport {
    /// Returns every Agent Plugins MCP transport kind.
    pub fn all() -> (r: [AgentPluginMcpTransport; 3])
        ensures
            r@ == seq![
                AgentPluginMcpTransport::Stdio,
                AgentPluginMcpTransport::StreamableHttp,
                AgentPluginMcpTransport::Sse,
            ],
    {
        [
            AgentPluginMcpTransport::Stdio,
            AgentPluginMcpTransport::StreamableHttp,
            AgentPluginMcpTransport::Sse,
        ]
    }
}

/// Options that control local Agent Plugins loading.
#[derive(Debug, Clone)]
pub struct AgentPluginLoadOptions {
    /// Filesystem-resolved client-managed writable data root for this plugin instance.
    pub plugin_data_root: String,
    /// MCP transports this client implementation can connect to.
    pub supported_mcp_transports: Vec<AgentPluginMcpTransport>,
}

/// Severity for Agent Plugins loader diagnostics.
#[derive(Debug, Clone, Copy, PartialEq, Eq, Structural)]
pub enum AgentPluginDiagnosticSeverity {
    /// Informational diagnostic that does not affect loading.
    Info,
    /// Nonfatal diagnostic that ignored a field, extension, or component.
    Warning,
    /// Fatal diagnostic for a manifest or component failure boundary.
    Error,
}

/// Structured diagnostic emitted while loading an Agent Plugin.
#[derive(Debug, Clone)]
pub struct AgentPluginDiagnostic {
    /// Severity of the loader finding.
    pub severity: AgentPluginDiagnosticSeverity,
    /// Stable machine-readable diagnostic code.
    pub code: &'static str,
    /// Plugin-relative or document-relative path for the finding.
    pub path: String,
    /// Human-readable diagnostic message.
    pub message: String,
}

/// What a diagnostic means.
pub struct Finding {
    /// Severity.
    pub severity: AgentPluginDiagnosticSeverity,
    /// Code.
    pub code: Seq<char>,
    /// Path.
    pub path: Seq<char>,
    /// Message.
    pub message: Seq<char>,
}

impl View for AgentPluginDiagnostic {
    type V = Finding;

    open spec fn view(&self) -> Finding {
        Finding {
            severity: self.severity,
            code: self.code@,
            path: self.path@,
            message: self.message@,
        }
    }
}

/// What diagnostics mean.
pub open spec fn findings(v: Seq<AgentPluginDiagnostic>) -> Seq<Finding> {
    v.map_values(|d: AgentPluginDiagnostic| d@)
}

/// A nonfatal finding.
pub open spec fn warned(code: Seq<char>, path: Seq<char>, message: Seq<char>) -> Finding {
    Finding { severity: AgentPluginDiagnosticSeverity::Warning, code, path, message }
}

/// A fatal finding.
pub open spec fn failed(code: Seq<char>, path: Seq<char>, message: Seq<char>) -> Finding {
    Finding { severity: AgentPluginDiagnosticSeverity::Error, code, path, message }
}

/// Makes a nonfatal diagnostic.
pub fn warning(code: &'static str, path: String, message: String) -> (r: AgentPluginDiagnostic)
    ensures
        r@ == warned(code@, path@, message@),
{
    AgentPluginDiagnostic {
        severity: AgentPluginDiagnosticSeverity::Warning,
        code,
        path,
        message,
    }
}

/// Makes a fatal diagnostic.
pub fn error(code: &'static str, path: String, message: String) -> (r: AgentPluginDiagnostic)
    ensures
        r@ == failed(code@, path@, message@),
{
    AgentPluginDiagnostic { severity: AgentPluginDiagnosticSeverity::Error, code, path, message }
}

/// Adds a diagnostic.
pub fn push_diagnostic(diagnostics: &mut Vec<AgentPluginDiagnostic>, d: AgentPluginDiagnostic)
    ensures
        findings(final(diagnostics)@) == findings(old(diagnostics)@).push(d@),
{
    let ghost was = findings(diagnostics@);
    diagnostics.push(d);
    assert(findings(diagnostics@) =~= was.push(d@));
}

/// What the file system says of a path.
#[derive(Debug, Clone)]
pub enum Located {
    /// The path leads nowhere, with the text of the error.
    Missing(String),
    /// The path leads to a file, and this is its resolved path.
    File(String),
    /// The path leads to a directory, and this is its resolved path.
    Directory(String),
    /// The path leads to something else, and this is its resolved path.
    Other(String),
}

/// The file that a path leads to, within a root.
pub open spec fn contained_file(root: Seq<char>, located: Located) -> Result<Seq<char>, Seq<char>> {
    match located {
        Located::Missing(message) => Err(message@),
        Located::File(path) if within(path@, root) => Ok(path@),
        _ => Err("path is not a contained regular file"@),
    }
}

/// What a result of two texts means.
pub open spec fn text_result(r: Result<String, String>) -> Result<Seq<char>, Seq<char>> {
    match r {
        Ok(text) => Ok(text@),
        Err(text) => Err(text@),
    }
}

/// Gives the file that a path leads to, within a root.
pub fn canonical_file(root: &str, located: &Located) -> (r: Result<String, String>)
    ensures
        text_result(r) == contained_file(root@, *located),
{
    match located {
        Located::Missing(message) => Err(message.clone()),
        Located::File(path) => {
            if is_within(path.as_str(), root) {
                Ok(path.clone())
            } else {
                Err("path is not a contained regular file".to_string())
            }
        },
        _ => Err("path is not a contained regular file".to_string()),
    }
}

/// The directory that a path leads to, within a root.
pub open spec fn contained_directory(root: Seq<char>, located: Located) -> Option<Seq<char>> {
    match located {
        Located::Directory(path) if within(path@, root) => Some(path@),
        _ => None,
    }
}

/// Gives the directory that a path leads to, within a root.
pub fn canonical_directory(root: &str, located: &Located) -> (r: Option<String>)
    ensures
        opt_text(r) == contained_directory(root@, *located),
{
    match located {
        Located::Directory(path) => {
            if is_within(path.as_str(), root) {
                Some(path.clone())
            } else {
                None
            }
        },
        _ => None,
    }
}

/// What reading a JSON document came to.
#[derive(Debug, Clone)]
pub enum Document {
    /// Its path leads to no file in the package, with the text that says so.
    Unlocated(String),
    /// The file could not be read, with the text of the error.
    Unreadable(String),
    /// The file holds no JSON, with the text of the error.
    Malformed(String),
    /// The file holds this value.
    Parsed(Value),
}

/// Loaded portable Agent Plugin package.
#[derive(Debug, Clone)]
pub struct LoadedAgentPlugin {
    /// Filesystem-resolved plugin root.
    pub root: String,
    /// Filesystem-normalized client-managed writable data root.
    pub data_root: String,
    /// Parsed root plugin manifest.
    pub manifest: AgentPluginManifest,
    /// Valid Agent Skills discovered from immediate children of `skills/`.
    pub skills: Vec<LoadedAgentPluginSkill>,
    /// Valid MCP server bindings discovered from root `mcp.json`.
    pub mcp_servers: Vec<(String, AgentPluginMcpServer)>,
    /// Raw object-valued manifest extensions keyed by namespace.
    pub extensions: Vec<(String, Value)>,
}

/// Result of attempting to load one Agent Plugin directory.
#[derive(Debug, Clone)]
pub struct AgentPluginLoadReport {
    /// Loaded plugin data, or `None` when the manifest failed fatally.
    pub plugin: Option<LoadedAgentPlugin>,
    /// Structured diagnostics collected during manifest and component loading.
    pub diagnostics: Vec<AgentPluginDiagnostic>,
}

/// What a loaded package means.
pub struct Plugin {
    /// Root.
    pub root: Seq<char>,
    /// Data root.
    pub data_root: Seq<char>,
    /// Manifest.
    pub manifest: Manifest,
    /// Skills.
    pub skills: Seq<(Seq<char>, Skill)>,
    /// MCP servers.
    pub mcp_servers: Seq<(Seq<char>, Binding)>,
    /// Extensions.
    pub extensions: Seq<(Seq<char>, Json)>,
}

impl View for LoadedAgentPlugin {
    type V = Plugin;

    open spec fn view(&self) -> Plugin {
        Plugin {
            root: self.root@,
            data_root: self.data_root@,
            manifest: self.manifest@,
            skills: named_skills(self.skills@),
            mcp_servers: bindings_view(self.mcp_servers@),
            extensions: entries(self.extensions@),
        }
    }
}

/// The root of a package, or what is wrong with it.
pub open spec fn root_result(located: Located) -> Result<Seq<char>, Finding> {
    match located {
        Located::Directory(path) => Ok(path@),
        Located::Missing(message) => Err(failed("plugin_root_missing"@, "."@, message@)),
        Located::File(path) => Err(
            failed("plugin_root_kind"@, "."@, "plugin root is not a directory: "@ + path@),
        ),
        Located::Other(path) => Err(
            failed("plugin_root_kind"@, "."@, "plugin root is not a directory: "@ + path@),
        ),
    }
}

/// The manifest that a document holds, with its extensions.
pub open spec fn document_manifest(document: Document) -> Option<
    (Manifest, Seq<(Seq<char>, Json)>),
> {
    match document {
        Document::Parsed(value) => read_manifest(value@),
        _ => None,
    }
}

/// The findings on the document of a manifest.
pub open spec fn document_findings(document: Document) -> Seq<Finding> {
    match document {
        Document::Unlocated(message) => seq![
            failed("manifest_path_invalid"@, "plugin.json"@, message@),
        ],
        Document::Unreadable(message) => seq![
            failed("manifest_read_failed"@, "plugin.json"@, message@),
        ],
        Document::Malformed(message) => seq![
            failed("manifest_json_invalid"@, "plugin.json"@, message@),
        ],
        Document::Parsed(value) => manifest_findings(value@),
    }
}

/// The package that was found, where its root and its manifest can be used.
pub open spec fn loaded_plugin(
    root: Located,
    manifest: Document,
    skills: SkillsFound,
    servers: Option<Document>,
    paths: Seq<ServerPaths>,
    options: AgentPluginLoadOptions,
) -> Option<Plugin> {
    match (root_result(root), document_manifest(manifest)) {
        (Ok(path), Some((m, extensions))) => Some(
            Plugin {
                root: path,
                data_root: normalized(options.plugin_data_root@),
                manifest: m,
                skills: loaded_skills(path, skills),
                mcp_servers: loaded_bindings(servers, m.schema, path, options, paths),
                extensions,
            },
        ),
        _ => None,
    }
}

/// The findings on a package: on its root, its manifest, its skills and its servers,
/// as far as they are looked at.
pub open spec fn plugin_findings(
    root: Located,
    manifest: Document,
    skills: SkillsFound,
    servers: Option<Document>,
    paths: Seq<ServerPaths>,
    options: AgentPluginLoadOptions,
) -> Seq<Finding> {
    match root_result(root) {
        Err(fault) => seq![fault],
        Ok(path) => match document_manifest(manifest) {
            None => document_findings(manifest),
            Some((m, _)) => document_findings(manifest) + skills_findings(path, skills)
                + servers_findings(servers, m.schema, path, options, paths),
        },
    }
}

fn find_root(located: &Located) -> (r: Result<String, AgentPluginDiagnostic>)
    ensures
        root_result(*located) == (match r {
            Ok(path) => Ok(path@),
            Err(d) => Err(d@),
        }),
{
    match located {
        Located::Directory(path) => Ok(path.clone()),
        Located::Missing(message) => Err(
            error("plugin_root_missing", ".".to_string(), message.clone()),
        ),
        Located::File(path) => Err(
            error(
                "plugin_root_kind",
                ".".to_string(),
                cat("plugin root is not a directory: ", path.as_str()),
            ),
        ),
        Located::Other(path) => Err(
            error(
                "plugin_root_kind",
                ".".to_string(),
                cat("plugin root is not a directory: ", path.as_str()),
            ),
        ),
    }
}

/// Reads the document of a manifest. Findings are added to the diagnostics.
pub fn load_manifest(document: &Document, diagnostics: &mut Vec<AgentPluginDiagnostic>) -> (r:
    Option<(AgentPluginManifest, Vec<(String, Value)>)>)
    ensures
        manifest_view(r) == document_manifest(*document),
        findings(final(diagnostics)@) == findings(old(diagnostics)@) + document_findings(
            *document,
        ),
{
    let ghost start = findings(diagnostics@);
    match document {
        Document::Parsed(value) => {
            return parse_manifest(value, diagnostics);
        },
        Document::Unlocated(message) => {
            push_diagnostic(
                diagnostics,
                error("manifest_path_invalid", "plugin.json".to_string(), message.clone()),
            );
        },
        Document::Unreadable(message) => {
            push_diagnostic(
                diagnostics,
                error("manifest_read_failed", "plugin.json".to_string(), message.clone()),
            );
        },
        Document::Malformed(message) => {
            push_diagnostic(
                diagnostics,
                error("manifest_json_invalid", "plugin.json".to_string(), message.clone()),
            );
        },
    }
    assert(findings(diagnostics@) =~= start + document_findings(*document));
    None
}

/// Loads a package from what was found of it on disk: what its root leads to, the
/// document of its manifest, its skills, the document of its servers where there is
/// one, and, for each server in its order, what the paths that it names lead to. Of
/// the rest, nothing is looked at where the root or the manifest cannot be used.
pub fn load_agent_plugin(
    root: &Located,
    manifest: &Document,
    skills: &SkillsFound,
    servers: &Option<Document>,
    paths: &Vec<ServerPaths>,
    options: &AgentPluginLoadOptions,
) -> (r: AgentPluginLoadReport)
    requires
        document_manifest(*manifest) matches Some((m, _)) ==> (listed_servers(
            *servers,
            m.schema,
        ) matches Ok(all) ==> all.len() <= paths@.len()),
    ensures
        loaded_plugin(*root, *manifest, *skills, *servers, paths@, *options) == (match r.plugin {
            Some(plugin) => Some(plugin@),
            None => None,
        }),
        findings(r.diagnostics@) == plugin_findings(
            *root,
            *manifest,
            *skills,
            *servers,
            paths@,
            *options,
        ),
{
    let mut diagnostics: Vec<AgentPluginDiagnostic> = Vec::new();
    assert(findings(diagnostics@) =~= Seq::empty());
    let path = match find_root(root) {
        Ok(path) => path,
        Err(d) => {
            push_diagnostic(&mut diagnostics, d);
            assert(findings(diagnostics@) =~= seq![d@]);
            return AgentPluginLoadReport { plugin: None, diagnostics };
        },
    };
    let (manifest, extensions) = match load_manifest(manifest, &mut diagnostics) {
        Some(pair) => pair,
        None => {
            assert(findings(diagnostics@) =~= document_findings(*manifest));
            return AgentPluginLoadReport { plugin: None, diagnostics };
        },
    };
    let skills = load_skills(path.as_str(), skills, &mut diagnostics);
    let data_root = normalize_absolute(options.plugin_data_root.as_str());
    let mcp_servers = load_mcp_servers(
        servers,
        path.as_str(),
        options,
        manifest.schema.as_str(),
        paths,
        &mut diagnostics,
    );
    let plugin = LoadedAgentPlugin {
        root: path,
        data_root,
        manifest,
        skills,
        mcp_servers,
        extensions,
    };
    AgentPluginLoadReport { plugin: Some(plugin), diagnostics }
}

// ---------------------------------------------------------------------------
// Laws
// ---------------------------------------------------------------------------

/// A manifest that cannot be used rejects the whole package, whatever else was
/// found of it.
pub proof fn law_bad_manifest_rejects_all(
    root: Located,
    manifest: Document,
    skills: SkillsFound,
    servers: Option<Document>,
    paths: Seq<ServerPaths>,
    options: AgentPluginLoadOptions,
)
    requires
        document_manifest(manifest) is None,
        root is Directory,
    ensures
        loaded_plugin(root, manifest, skills, servers, paths, options) is None,
        plugin_findings(root, manifest, skills, servers, paths, options) == document_findings(
            manifest,
        ),
{
}

/// A document of servers that cannot be used takes the servers away, and nothing
/// else.
pub proof fn law_bad_servers_disable_servers_only(
    root: Located,
    manifest: Document,
    skills: SkillsFound,
    servers: Document,
    paths: Seq<ServerPaths>,
    options: AgentPluginLoadOptions,
)
    requires
        loaded_plugin(root, manifest, skills, None, paths, options) is Some,
        listed_servers(Some(servers), document_manifest(manifest)->Some_0.0.schema) is Err,
    ensures
        ({
            let without = loaded_plugin(root, manifest, skills, None, paths, options);
            let plugin = loaded_plugin(root, manifest, skills, Some(servers), paths, options);
            &&& plugin is Some
            &&& plugin->Some_0.mcp_servers.len() == 0
            &&& plugin->Some_0.skills == without->Some_0.skills
            &&& plugin->Some_0.manifest == without->Some_0.manifest
            &&& plugin->Some_0.extensions == without->Some_0.extensions
        }),
{
}

/// A plugin is loaded exactly where its root is a directory and its manifest is read; it
/// has that root and what the manifest says.
pub proof fn law_plugins_are_loaded_from_directories(
    root: Located,
    manifest: Document,
    skills: SkillsFound,
    servers: Option<Document>,
    paths: Seq<ServerPaths>,
    options: AgentPluginLoadOptions,
)
    ensures
        ({
            let loaded = loaded_plugin(root, manifest, skills, servers, paths, options);
            &&& loaded is Some <==> root is Directory && (manifest matches Document::Parsed(value)
                && read_manifest(value@) is Some)
            &&& loaded matches Some(plugin) ==> {
                &&& root matches Located::Directory(path) && plugin.root == path@
                &&& manifest matches Document::Parsed(value) && read_manifest(value@) == Some(
                    (plugin.manifest, plugin.extensions),
                )
            }
        }),
{
}

/// A plugin that is not loaded has an error among its findings.
pub proof fn law_unloaded_plugins_have_errors(
    root: Located,
    manifest: Document,
    skills: SkillsFound,
    servers: Option<Document>,
    paths: Seq<ServerPaths>,
    options: AgentPluginLoadOptions,
)
    requires
        loaded_plugin(root, manifest, skills, servers, paths, options) is None,
    ensures
        ({
            let all = plugin_findings(root, manifest, skills, servers, paths, options);
            all.len() > 0 && all.last().severity is Error
        }),
{
    if let Document::Parsed(value) = manifest {
        crate::agent_plugin::loader::manifest::law_refused_manifests_say_why(value@);
    }
}

/// A file counts exactly where it is a file inside the root, and a directory exactly
/// where it is a directory inside the root.
pub proof fn law_paths_stay_inside(root: Seq<char>, located: Located)
    ensures
        contained_file(root, located) matches Ok(path) ==> within(path, root),
        contained_file(root, located) is Ok <==> (located matches Located::File(path) && within(
            path@,
            root,
        )),
        located matches Located::File(path) ==> (contained_file(root, located) matches Ok(p)
            ==> p == path@),
        contained_directory(root, located) is Some <==> (located matches Located::Directory(path)
            && within(path@, root)),
        located matches Located::Directory(path) ==> (contained_directory(root, located) matches Some(
            p,
        ) ==> p == path@),
{
}

} // verus!
