//! Why a package cannot be published.

use vstd::prelude::*;
use crate::text::{cat, cat3, decimal, decimal_text};

verus! {

/// Error returned while publishing an Agent Plugin directory.
#[derive(Debug)]
pub enum AgentPluginPublisherError {
    /// The plugin name does not match Agent Plugins 1.0 rules.
    InvalidPluginName {
        /// Rejected plugin name.
        name: String,
    },
    /// A skill directory and frontmatter name do not match Agent Skills rules.
    InvalidSkillName {
        /// Rejected skill name.
        name: String,
    },
    /// The MCP stdio command is not a bare token or plugin-relative path.
    InvalidMcpCommand {
        /// Rejected stdio command.
        command: String,
    },
    /// A named MCP server binding violates Agent Plugins rules.
    InvalidMcpServer {
        /// Server name.
        name: String,
        /// Validation failure.
        reason: String,
    },
    /// A manifest extension namespace is not reverse-domain shaped.
    InvalidExtensionNamespace {
        /// Rejected namespace.
        namespace: String,
    },
    /// A generated skill description is missing or too long.
    InvalidSkillDescription {
        /// Skill name.
        name: String,
        /// Description length in characters.
        len: usize,
    },
    /// An authored skill directory cannot be copied safely.
    InvalidSkillDirectory {
        /// Rejected source path.
        path: String,
        /// Validation failure.
        reason: String,
    },
    /// A bundled Tool Runtime cannot be published safely.
    InvalidToolRuntime {
        /// Rejected source path.
        path: String,
        /// Validation failure.
        reason: String,
    },
    /// The output directory already contains owned plugin artifacts.
    OutputExists {
        /// Existing owned artifact path.
        path: String,
    },
}

/// What an [`AgentPluginPublisherError`] means.
pub enum Fault {
    /// The plugin name.
    PluginName(Seq<char>),
    /// A skill name.
    SkillName(Seq<char>),
    /// A stdio command.
    Command(Seq<char>),
    /// A server: name and reason.
    Server(Seq<char>, Seq<char>),
    /// An extension namespace.
    Namespace(Seq<char>),
    /// A skill description: name of the skill and length.
    Description(Seq<char>, nat),
    /// An authored skill: source path and reason.
    SkillDirectory(Seq<char>, Seq<char>),
    /// The tool runtime: source path and reason.
    ToolRuntime(Seq<char>, Seq<char>),
    /// An existing artifact.
    Exists(Seq<char>),
}

impl View for AgentPluginPublisherError {
    type V = Fault;

    open spec fn view(&self) -> Fault {
        match *self {
            AgentPluginPublisherError::InvalidPluginName { name } => Fault::PluginName(name@),
            AgentPluginPublisherError::InvalidSkillName { name } => Fault::SkillName(name@),
            AgentPluginPublisherError::InvalidMcpCommand { command } => Fault::Command(command@),
            AgentPluginPublisherError::InvalidMcpServer { name, reason } => Fault::Server(
                name@,
                reason@,
            ),
            AgentPluginPublisherError::InvalidExtensionNamespace { namespace } => {
                Fault::Namespace(namespace@)
            },
            AgentPluginPublisherError::InvalidSkillDescription { name, len } => {
                Fault::Description(name@, len as nat)
            },
            AgentPluginPublisherError::InvalidSkillDirectory { path, reason } => {
                Fault::SkillDirectory(path@, reason@)
            },
            AgentPluginPublisherError::InvalidToolRuntime { path, reason } => {
                Fault::ToolRuntime(path@, reason@)
            },
            AgentPluginPublisherError::OutputExists { path } => Fault::Exists(path@),
        }
    }
}

/// The fault of a check.
pub open spec fn fault_of(r: Result<(), AgentPluginPublisherError>) -> Option<Fault> {
    match r {
        Ok(_) => None,
        Err(e) => Some(e@),
    }
}

/// What is said of a fault.
pub open spec fn fault_message(f: Fault) -> Seq<char> {
    match f {
        Fault::PluginName(name) => "invalid plugin name: "@ + name,
        Fault::SkillName(name) => "invalid skill name: "@ + name,
        Fault::Command(command) => "invalid MCP stdio command: "@ + command,
        Fault::Server(name, reason) => "invalid MCP server "@ + name + ": "@ + reason,
        Fault::Namespace(namespace) => "invalid extension namespace: "@ + namespace,
        Fault::Description(name, len) => "invalid skill description for "@ + name + ": length "@
            + decimal(len),
        Fault::SkillDirectory(path, reason) => "invalid skill directory "@ + path + ": "@ + reason,
        Fault::ToolRuntime(path, reason) => "invalid Tool Runtime "@ + path + ": "@ + reason,
        Fault::Exists(path) => "output path already exists: "@ + path,
    }
}

fn pair(lead: &str, first: &str, second: &str) -> (r: String)
    ensures
        r@ == lead@ + first@ + ": "@ + second@,
{
    let mut out = cat3(lead, first, ": ");
    out.append(second);
    out
}

impl AgentPluginPublisherError {
    /// Says what is wrong.
    pub fn message(&self) -> (r: String)
        ensures
            r@ == fault_message(self@),
    {
        match self {
            AgentPluginPublisherError::InvalidPluginName { name } => cat(
                "invalid plugin name: ",
                name.as_str(),
            ),
            AgentPluginPublisherError::InvalidSkillName { name } => cat(
                "invalid skill name: ",
                name.as_str(),
            ),
            AgentPluginPublisherError::InvalidMcpCommand { command } => cat(
                "invalid MCP stdio command: ",
                command.as_str(),
            ),
            AgentPluginPublisherError::InvalidMcpServer { name, reason } => pair(
                "invalid MCP server ",
                name.as_str(),
                reason.as_str(),
            ),
            AgentPluginPublisherError::InvalidExtensionNamespace { namespace } => cat(
                "invalid extension namespace: ",
                namespace.as_str(),
            ),
            AgentPluginPublisherError::InvalidSkillDescription { name, len } => {
                let mut out = cat3("invalid skill description for ", name.as_str(), ": length ");
                out.append(decimal_text(*len as u64).as_str());
                out
            },
            AgentPluginPublisherError::InvalidSkillDirectory { path, reason } => pair(
                "invalid skill directory ",
                path.as_str(),
                reason.as_str(),
            ),
            AgentPluginPublisherError::InvalidToolRuntime { path, reason } => pair(
                "invalid Tool Runtime ",
                path.as_str(),
                reason.as_str(),
            ),
            AgentPluginPublisherError::OutputExists { path } => cat(
                "output path already exists: ",
                path.as_str(),
            ),
        }
    }
}

/// Each error says what is wrong and names it.
pub proof fn law_errors_name_their_subject(name: Seq<char>, reason: Seq<char>, len: nat)
    ensures
        fault_message(Fault::PluginName(name)) == "invalid plugin name: "@ + name,
        fault_message(Fault::SkillName(name)) == "invalid skill name: "@ + name,
        fault_message(Fault::Command(name)) == "invalid MCP stdio command: "@ + name,
        fault_message(Fault::Namespace(name)) == "invalid extension namespace: "@ + name,
        fault_message(Fault::Exists(name)) == "output path already exists: "@ + name,
        (": "@ + reason).is_suffix_of(fault_message(Fault::Server(name, reason))),
        ("invalid MCP server "@ + name).is_prefix_of(fault_message(Fault::Server(name, reason))),
        (": "@ + reason).is_suffix_of(fault_message(Fault::SkillDirectory(name, reason))),
        ("invalid skill directory "@ + name).is_prefix_of(
            fault_message(Fault::SkillDirectory(name, reason)),
        ),
        (": "@ + reason).is_suffix_of(fault_message(Fault::ToolRuntime(name, reason))),
        ("invalid Tool Runtime "@ + name).is_prefix_of(
            fault_message(Fault::ToolRuntime(name, reason)),
        ),
        decimal(len).is_suffix_of(fault_message(Fault::Description(name, len))),
        ("invalid skill description for "@ + name).is_prefix_of(
            fault_message(Fault::Description(name, len)),
        ),
{
    let tail = ": "@ + reason;
    let a = fault_message(Fault::Server(name, reason));
    assert(a.subrange(a.len() - tail.len(), a.len() as int) =~= tail);
    let lead = "invalid MCP server "@ + name;
    assert(a.subrange(0, lead.len() as int) =~= lead);
    let b = fault_message(Fault::SkillDirectory(name, reason));
    assert(b.subrange(b.len() - tail.len(), b.len() as int) =~= tail);
    let front = "invalid skill directory "@ + name;
    assert(b.subrange(0, front.len() as int) =~= front);
    let c = fault_message(Fault::ToolRuntime(name, reason));
    assert(c.subrange(c.len() - tail.len(), c.len() as int) =~= tail);
    let begin = "invalid Tool Runtime "@ + name;
    assert(c.subrange(0, begin.len() as int) =~= begin);
    let d = fault_message(Fault::Description(name, len));
    assert(d.subrange(d.len() - decimal(len).len(), d.len() as int) =~= decimal(len));
    let start = "invalid skill description for "@ + name;
    assert(d.subrange(0, start.len() as int) =~= start);
}

} // verus!
