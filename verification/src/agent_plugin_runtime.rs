//! Runtime preparation of the MCP servers of a loaded Agent Plugin.

use vstd::prelude::*;
use crate::agent_plugin::loader::servers::{
    all_expanded, binding_transport, bindings_view, expand_all, transport_kind,
    AgentPluginMcpServer, AgentPluginStdioMcpServer, Binding, StdioBinding,
};
use crate::agent_plugin::loader::AgentPluginMcpTransport;
use crate::agent_plugin::paths::{is_within, within};
use crate::agent_plugin::skills::{law_unique_names_differ, repeated_name};
use crate::cli::builder::{all_fit, command_fits, mounted, Cli};
use crate::cli::collect::{exposed_name, tool_name};
use crate::cli::generated::{lemma_group_view, lemma_trees, trees, Tree};
use crate::cli::tree::{holds_text, CommandEntry};
use crate::cli::walk::{collect_leaves, found, leaves, leaves_of};
use crate::command::CommandDef;
use crate::table;
use crate::table::{insert_text, inserted, keyed, keys, lookup, text_table};
use crate::text::{cat, chars_of, lowered, matches_at, opt_text, same, same_ignoring_case, texts};

verus! {

/// A text in which every placeholder for the root and the data directory has been
/// replaced, in one pass from the left.
pub open spec fn expanded(value: Seq<char>, root: Seq<char>, data: Seq<char>) -> Seq<char>
    decreases value.len(),
{
    if value.len() == 0 {
        Seq::empty()
    } else if "${PLUGIN_ROOT}"@.is_prefix_of(value) && "${PLUGIN_ROOT}"@.len() > 0 {
        root + expanded(value.skip("${PLUGIN_ROOT}"@.len() as int), root, data)
    } else if "${PLUGIN_DATA}"@.is_prefix_of(value) && "${PLUGIN_DATA}"@.len() > 0 {
        data + expanded(value.skip("${PLUGIN_DATA}"@.len() as int), root, data)
    } else {
        seq![value[0]] + expanded(value.skip(1), root, data)
    }
}

/// Replaces the placeholders for the root and the data directory.
pub fn expand(value: &str, root: &str, data: &str) -> (r: String)
    ensures
        r@ == expanded(value@, root@, data@),
{
    let x = chars_of(value);
    let a = chars_of("${PLUGIN_ROOT}");
    let b = chars_of("${PLUGIN_DATA}");
    proof {
        reveal_strlit("${PLUGIN_ROOT}");
        reveal_strlit("${PLUGIN_DATA}");
    }
    let mut out = String::new();
    let mut i: usize = 0;
    assert(x@.skip(0) =~= x@);
    assert(out@ + expanded(x@, root@, data@) =~= expanded(x@, root@, data@));
    while i < x.len()
        invariant
            i <= x.len(),
            x@ == value@,
            a@ == "${PLUGIN_ROOT}"@,
            b@ == "${PLUGIN_DATA}"@,
            a@.len() == 14,
            b@.len() == 14,
            out@ + expanded(x@.skip(i as int), root@, data@) == expanded(value@, root@, data@),
        decreases x.len() - i,
    {
        let ghost rest = x@.skip(i as int);
        let ghost was = out@;
        if matches_at(&x, &a, i) {
            assert(a@ =~= rest.subrange(0, 14)) by {
                assert(rest.subrange(0, 14) =~= x@.subrange(i as int, i + 14));
            }
            assert(rest.skip(14) =~= x@.skip(i + 14));
            out.append(root);
            assert(out@ + expanded(x@.skip(i + 14), root@, data@) =~= was + (root@ + expanded(
                x@.skip(i + 14),
                root@,
                data@,
            )));
            i += 14;
        } else if matches_at(&x, &b, i) {
            assert(!a@.is_prefix_of(rest)) by {
                if a@.is_prefix_of(rest) {
                    assert(rest.subrange(0, 14) =~= x@.subrange(i as int, i + 14));
                }
            }
            assert(b@ =~= rest.subrange(0, 14)) by {
                assert(rest.subrange(0, 14) =~= x@.subrange(i as int, i + 14));
            }
            assert(rest.skip(14) =~= x@.skip(i + 14));
            out.append(data);
            assert(out@ + expanded(x@.skip(i + 14), root@, data@) =~= was + (data@ + expanded(
                x@.skip(i + 14),
                root@,
                data@,
            )));
            i += 14;
        } else {
            assert(!a@.is_prefix_of(rest)) by {
                if a@.is_prefix_of(rest) {
                    assert(rest.subrange(0, 14) =~= x@.subrange(i as int, i + 14));
                }
            }
            assert(!b@.is_prefix_of(rest)) by {
                if b@.is_prefix_of(rest) {
                    assert(rest.subrange(0, 14) =~= x@.subrange(i as int, i + 14));
                }
            }
            assert(rest.skip(1) =~= x@.skip(i + 1));
            out.push(x[i]);
            assert(out@ + expanded(x@.skip(i + 1), root@, data@) =~= was + (seq![rest[0]]
                + expanded(x@.skip(i + 1), root@, data@)));
            i += 1;
        }
    }
    assert(x@.skip(i as int) =~= Seq::empty());
    assert(out@ + Seq::<char>::empty() =~= out@);
    out
}

/// Whether two names are those of one variable. Where `ignore_case` holds, the case of
/// ASCII letters makes no difference.
pub open spec fn same_variable(a: Seq<char>, b: Seq<char>, ignore_case: bool) -> bool {
    if ignore_case {
        lowered(a) == lowered(b)
    } else {
        a == b
    }
}

/// An environment without a variable.
pub open spec fn unset(
    environment: Seq<(Seq<char>, Seq<char>)>,
    name: Seq<char>,
    ignore_case: bool,
) -> Seq<(Seq<char>, Seq<char>)> {
    environment.filter(|e: (Seq<char>, Seq<char>)| !same_variable(e.0, name, ignore_case))
}

/// An environment in which a variable is set.
pub open spec fn assigned(
    environment: Seq<(Seq<char>, Seq<char>)>,
    name: Seq<char>,
    value: Seq<char>,
    ignore_case: bool,
) -> Seq<(Seq<char>, Seq<char>)> {
    inserted(unset(environment, name, ignore_case), name, value)
}

/// The environment after variables have been laid over it, one after the other,
/// with their placeholders replaced.
pub open spec fn overlaid(
    base: Seq<(Seq<char>, Seq<char>)>,
    configured: Seq<(Seq<char>, Seq<char>)>,
    root: Seq<char>,
    data: Seq<char>,
    ignore_case: bool,
) -> Seq<(Seq<char>, Seq<char>)>
    decreases configured.len(),
{
    if configured.len() == 0 {
        base
    } else {
        assigned(
            overlaid(base, configured.drop_last(), root, data, ignore_case),
            configured.last().0,
            expanded(configured.last().1, root, data),
            ignore_case,
        )
    }
}

/// The environment of a server: the configured variables over the base, and the
/// reserved ones over both.
pub open spec fn server_environment(
    base: Seq<(Seq<char>, Seq<char>)>,
    configured: Seq<(Seq<char>, Seq<char>)>,
    root: Seq<char>,
    data: Seq<char>,
    ignore_case: bool,
) -> Seq<(Seq<char>, Seq<char>)> {
    assigned(
        assigned(
            overlaid(base, configured, root, data, ignore_case),
            "PLUGIN_ROOT"@,
            root,
            ignore_case,
        ),
        "PLUGIN_DATA"@,
        data,
        ignore_case,
    )
}

fn is_same_variable(a: &str, b: &str, ignore_case: bool) -> (r: bool)
    ensures
        r == same_variable(a@, b@, ignore_case),
{
    if ignore_case {
        same_ignoring_case(a, b)
    } else {
        same(a, b)
    }
}

fn set_variable(
    environment: Vec<(String, String)>,
    name: &str,
    value: String,
    ignore_case: bool,
) -> (r: Vec<(String, String)>)
    ensures
        text_table(r@) == assigned(text_table(environment@), name@, value@, ignore_case),
{
    let ghost all = text_table(environment@);
    let mut kept: Vec<(String, String)> = Vec::new();
    let mut i: usize = 0;
    proof {
        reveal(Seq::filter);
    }
    assert(text_table(kept@) =~= unset(all.take(0), name@, ignore_case));
    while i < environment.len()
        invariant
            i <= environment@.len(),
            all == text_table(environment@),
            text_table(kept@) == unset(all.take(i as int), name@, ignore_case),
        decreases environment.len() - i,
    {
        proof {
            reveal(Seq::filter);
        }
        let ghost was = text_table(kept@);
        let ghost entry = environment@[i as int];
        assert(all.take(i + 1).drop_last() =~= all.take(i as int));
        assert(all.take(i + 1).last() == (entry.0@, entry.1@));
        if !is_same_variable(environment[i].0.as_str(), name, ignore_case) {
            kept.push((environment[i].0.clone(), environment[i].1.clone()));
            assert(text_table(kept@) =~= was.push((entry.0@, entry.1@)));
        }
        i += 1;
    }
    assert(all.take(all.len() as int) =~= all);
    insert_text(&mut kept, name.to_string(), value);
    kept
}

/// Lays the configured variables over an environment, and the reserved ones over
/// both. `ignore_case` tells whether the system takes names that differ in the case
/// of ASCII letters for one.
pub fn resolve_environment(
    base: &Vec<(String, String)>,
    configured: &Vec<(String, String)>,
    root: &str,
    data: &str,
    ignore_case: bool,
) -> (r: Vec<(String, String)>)
    ensures
        text_table(r@) == server_environment(
            text_table(base@),
            text_table(configured@),
            root@,
            data@,
            ignore_case,
        ),
{
    let mut environment = crate::agent_plugin::servers::copy_text_table(base);
    let ghost all = text_table(configured@);
    let mut i: usize = 0;
    assert(all.take(0) =~= Seq::empty());
    while i < configured.len()
        invariant
            i <= configured@.len(),
            all == text_table(configured@),
            text_table(environment@) == overlaid(
                text_table(base@),
                all.take(i as int),
                root@,
                data@,
                ignore_case,
            ),
        decreases configured.len() - i,
    {
        assert(all.take(i + 1).drop_last() =~= all.take(i as int));
        assert(all.take(i + 1).last() == (configured@[i as int].0@, configured@[i as int].1@));
        environment = set_variable(
            environment,
            configured[i].0.as_str(),
            expand(configured[i].1.as_str(), root, data),
            ignore_case,
        );
        i += 1;
    }
    assert(all.take(all.len() as int) =~= all);
    environment = set_variable(environment, "PLUGIN_ROOT", root.to_string(), ignore_case);
    set_variable(environment, "PLUGIN_DATA", data.to_string(), ignore_case)
}

// ---------------------------------------------------------------------------
// Starting a stdio server
// ---------------------------------------------------------------------------

/// How a stdio server is started.
#[derive(Debug, Clone)]
pub struct StdioLaunch {
    /// The executable.
    pub executable: String,
    /// Its arguments.
    pub args: Vec<String>,
    /// Its whole environment.
    pub environment: Vec<(String, String)>,
    /// Its working directory.
    pub cwd: String,
}

/// Whether the working directory of a server is in the data directory, so that it is
/// to be created before the server starts.
pub fn works_in_data(server: &AgentPluginStdioMcpServer, data: &str) -> (r: bool)
    ensures
        r == within(server@.resolved_cwd, data@),
{
    is_within(server.resolved_cwd.as_str(), data)
}

/// The directory in which a server is started. `resolved` are the resolved paths of the
/// data directory and of the working directory, where the latter is in the former.
pub open spec fn launch_cwd(
    server: StdioBinding,
    data: Seq<char>,
    resolved: Option<(Seq<char>, Seq<char>)>,
) -> Option<Seq<char>> {
    if within(server.resolved_cwd, data) {
        match resolved {
            Some((real_data, real_cwd)) if within(real_cwd, real_data) => Some(real_cwd),
            _ => None,
        }
    } else {
        Some(server.resolved_cwd)
    }
}

/// What a pair of texts that may be missing means.
pub open spec fn opt_pair(pair: Option<(&str, &str)>) -> Option<(Seq<char>, Seq<char>)> {
    match pair {
        Some((a, b)) => Some((a@, b@)),
        None => None,
    }
}

/// Prepares the start of a stdio server. `resolved` are the resolved paths of the data
/// directory and of the working directory, once both exist, where the latter is in
/// the former. A working directory that leads out of the data directory is refused.
/// `ignore_case` is that of [`resolve_environment`].
pub fn prepare_stdio(
    root: &str,
    data: &str,
    server: &AgentPluginStdioMcpServer,
    base_environment: &Vec<(String, String)>,
    resolved: Option<(&str, &str)>,
    ignore_case: bool,
) -> (r: Result<StdioLaunch, String>)
    ensures
        match r {
            Ok(launch) => {
                &&& launch_cwd(server@, data@, opt_pair(resolved)) == Some(launch.cwd@)
                &&& launch.executable@ == (match server@.resolved_command {
                    Some(path) => path,
                    None => server@.command,
                })
                &&& texts(launch.args@) == all_expanded(server@.args, root@, data@)
                &&& text_table(launch.environment@) == server_environment(
                    text_table(base_environment@),
                    server@.env,
                    root@,
                    data@,
                    ignore_case,
                )
            },
            Err(message) => {
                &&& launch_cwd(server@, data@, opt_pair(resolved)) is None
                &&& message@ == "stdio cwd escapes the client-managed plugin data directory"@
            },
        },
{
    let cwd = if works_in_data(server, data) {
        let inside = match resolved {
            Some((real_data, real_cwd)) => {
                if is_within(real_cwd, real_data) {
                    Some(real_cwd.to_string())
                } else {
                    None
                }
            },
            None => None,
        };
        match inside {
            Some(path) => path,
            None => {
                return Err(
                    "stdio cwd escapes the client-managed plugin data directory".to_string(),
                );
            },
        }
    } else {
        server.resolved_cwd.clone()
    };
    let executable = match &server.resolved_command {
        Some(path) => path.clone(),
        None => server.command.clone(),
    };
    Ok(
        StdioLaunch {
            executable,
            args: expand_all(&server.args, root, data),
            environment: resolve_environment(
                base_environment,
                &server.env,
                root,
                data,
                ignore_case,
            ),
            cwd,
        },
    )
}

// ---------------------------------------------------------------------------
// Connected servers
// ---------------------------------------------------------------------------

/// Connection result for one independently started Agent Plugin MCP server.
#[derive(Debug, Clone)]
pub struct AgentPluginMcpServerStatus {
    /// Server key from `mcp.json`.
    pub name: String,
    /// Configured MCP transport.
    pub transport: AgentPluginMcpTransport,
    /// Number of tools projected when the connection succeeded.
    pub tool_count: usize,
    /// Connection, authentication, or handshake failure when the server was skipped.
    pub error: Option<String>,
}

/// What a status means.
pub struct ServerStatus {
    /// Server key.
    pub name: Seq<char>,
    /// Transport.
    pub transport: AgentPluginMcpTransport,
    /// Number of tools.
    pub tool_count: nat,
    /// Failure.
    pub error: Option<Seq<char>>,
}

impl View for AgentPluginMcpServerStatus {
    type V = ServerStatus;

    open spec fn view(&self) -> ServerStatus {
        ServerStatus {
            name: self.name@,
            transport: self.transport,
            tool_count: self.tool_count as nat,
            error: opt_text(self.error),
        }
    }
}

/// What statuses mean.
pub open spec fn statuses(v: Seq<AgentPluginMcpServerStatus>) -> Seq<ServerStatus> {
    v.map_values(|s: AgentPluginMcpServerStatus| s@)
}

/// Connected Agent Plugin tool surface and per-server connection results.
pub struct ConnectedAgentPlugin {
    /// Commands of every connected MCP server, in a group under the server's name.
    pub cli: Cli,
    /// Stable server connection results in `mcp.json` key order.
    pub servers: Vec<AgentPluginMcpServerStatus>,
}

/// Fatal failure while preparing a loaded Agent Plugin runtime.
#[derive(Debug, Clone)]
pub enum AgentPluginRuntimeError {
    /// The client-managed data directory could not be prepared.
    Io(String),
    /// Connected tools could not be assembled into a catalog.
    Catalog(String),
}

impl AgentPluginRuntimeError {
    /// Gives the text of the error.
    pub fn message(&self) -> (r: String)
        ensures
            r@ == (match *self {
                AgentPluginRuntimeError::Io(text)
                    => "failed to prepare Agent Plugin data directory: "@ + text@,
                AgentPluginRuntimeError::Catalog(text)
                    => "failed to build Agent Plugin tool catalog: "@ + text@,
            }),
    {
        match self {
            AgentPluginRuntimeError::Io(text) => cat(
                "failed to prepare Agent Plugin data directory: ",
                text.as_str(),
            ),
            AgentPluginRuntimeError::Catalog(text) => cat(
                "failed to build Agent Plugin tool catalog: ",
                text.as_str(),
            ),
        }
    }
}

/// What an attempt to connect a server came to: the commands of its tools, or the
/// text of the failure.
#[derive(Debug)]
pub enum Connection {
    /// The commands of the server's tools.
    Connected(Vec<(String, CommandDef)>),
    /// The text of the failure.
    Refused(String),
}

/// The commands of a connected server by their names.
pub open spec fn server_commands(all: Seq<(String, CommandDef)>) -> Seq<(Seq<char>, Tree)>
    decreases all.len(),
{
    if all.len() == 0 {
        Seq::empty()
    } else {
        inserted(server_commands(all.drop_last()), all.last().0@, Tree::Leaf(all.last().1))
    }
}

/// The groups of the connected servers by their names.
pub open spec fn server_groups(
    names: Seq<Seq<char>>,
    connections: Seq<Connection>,
    n: nat,
) -> Seq<(Seq<char>, Tree)>
    decreases n,
{
    if n == 0 {
        Seq::empty()
    } else {
        let before = server_groups(names, connections, (n - 1) as nat);
        match connections[n - 1] {
            Connection::Connected(commands) => inserted(
                before,
                names[n - 1],
                Tree::Group {
                    description: None,
                    commands: server_commands(commands@),
                    middleware: Seq::empty(),
                    policy: None,
                },
            ),
            Connection::Refused(_) => before,
        }
    }
}

/// The status of a server.
pub open spec fn status_of(name: Seq<char>, server: Binding, connection: Connection) -> ServerStatus {
    ServerStatus {
        name,
        transport: binding_transport(server),
        tool_count: match connection {
            Connection::Connected(commands) => commands@.len(),
            Connection::Refused(_) => 0,
        },
        error: match connection {
            Connection::Connected(_) => None,
            Connection::Refused(text) => Some(text@),
        },
    }
}

/// The statuses of servers, in their order.
pub open spec fn all_statuses(
    servers: Seq<(Seq<char>, Binding)>,
    connections: Seq<Connection>,
) -> Seq<ServerStatus> {
    Seq::new(
        servers.len(),
        |i: int| status_of(servers[i].0, servers[i].1, connections[i]),
    )
}

/// Without global options, every command fits.
proof fn lemma_fits(command: CommandDef)
    ensures
        command_fits(command, Seq::empty(), Seq::empty()),
{
}

proof fn lemma_no_globals(cli: Cli)
    requires
        cli.globals_fields@.len() == 0,
        cli.global_aliases@.len() == 0,
    ensures
        cli.globals_fields@ == Seq::<crate::schema::FieldMeta>::empty(),
        keyed(cli.global_aliases@) == Seq::<(Seq<char>, char)>::empty(),
{
    assert(cli.globals_fields@ =~= Seq::empty());
    assert(keyed(cli.global_aliases@) =~= Seq::empty());
}

spec fn plain(cli: Cli) -> bool {
    &&& cli.globals_fields@.len() == 0
    &&& cli.global_aliases@.len() == 0
    &&& cli.root_command is None
    &&& cli.description is None
    &&& cli.middleware@.len() == 0
    &&& cli.output_policy is None
}

fn group_of(name: String, commands: Vec<(String, CommandDef)>) -> (r: Cli)
    ensures
        r.name == name,
        plain(r),
        trees(r.commands@) == server_commands(commands@),
{
    let ghost all = commands@;
    let mut rest = commands;
    let mut group = Cli::create(name);
    let n: usize = rest.len();
    let mut i: usize = 0;
    assert(trees(group.commands@) =~= server_commands(all.take(0)));
    assert(all.skip(0) =~= all);
    while i < n
        invariant
            i <= n,
            n == all.len(),
            rest@ == all.skip(i as int),
            group.name == name,
            plain(group),
            trees(group.commands@) == server_commands(all.take(i as int)),
        decreases n - i,
    {
        assert(all.take(i + 1).drop_last() =~= all.take(i as int));
        assert(rest@[0] == all[i as int]);
        let (command, def) = rest.remove(0);
        assert(rest@ =~= all.skip(i + 1));
        proof {
            lemma_no_globals(group);
            lemma_fits(def);
            lemma_trees(group.commands@);
            table::lemma_inserted_mapped(
                keyed(group.commands@),
                command@,
                CommandEntry::Leaf(def),
                |e: CommandEntry| e@,
            );
        }
        group = group.command(command, def);
        proof {
            lemma_trees(group.commands@);
        }
        i += 1;
    }
    assert(all.take(all.len() as int) =~= all);
    group
}

proof fn lemma_all_fit(cli: Cli)
    ensures
        all_fit(cli.root_command, cli.commands@, Seq::empty(), Seq::empty()),
{
    assert forall|k: int| 0 <= k < leaves(cli.commands@, Seq::empty()).len() implies command_fits(
        (#[trigger] leaves(cli.commands@, Seq::empty())[k]).1,
        Seq::empty(),
        Seq::empty(),
    ) by {
        lemma_fits(leaves(cli.commands@, Seq::empty())[k].1);
    }
    if let Some(def) = cli.root_command {
        lemma_fits(def);
    }
}

/// The names of the tools that an entry which `path` leads to exposes.
pub open spec fn tools_below(entry: Tree, path: Seq<Seq<char>>) -> Seq<Seq<char>>
    decreases entry, 0nat,
{
    match entry {
        Tree::Leaf(def) => match tool_name(path, def) {
            Some(name) => seq![name],
            None => Seq::empty(),
        },
        Tree::Group { commands, .. } => tools_of(commands, path),
        Tree::Gateway { .. } => Seq::empty(),
    }
}

/// The names of the tools that the commands of one level and of the groups in it
/// expose, behind the names `prefix`.
pub open spec fn tools_of(commands: Seq<(Seq<char>, Tree)>, prefix: Seq<Seq<char>>) -> Seq<Seq<char>>
    decreases commands, commands.len(),
{
    if commands.len() == 0 {
        Seq::empty()
    } else {
        tools_of(commands.drop_last(), prefix) + tools_below(
            commands.last().1,
            prefix.push(commands.last().0),
        )
    }
}

spec fn leaf_tools(all: Seq<(Seq<Seq<char>>, CommandDef)>) -> Seq<Seq<char>>
    decreases all.len(),
{
    if all.len() == 0 {
        Seq::empty()
    } else {
        leaf_tools(all.drop_last()) + match tool_name(all.last().0, all.last().1) {
            Some(name) => seq![name],
            None => Seq::empty(),
        }
    }
}

proof fn lemma_leaf_tools_joined(
    a: Seq<(Seq<Seq<char>>, CommandDef)>,
    b: Seq<(Seq<Seq<char>>, CommandDef)>,
)
    ensures
        leaf_tools(a + b) == leaf_tools(a) + leaf_tools(b),
    decreases b.len(),
{
    if b.len() == 0 {
        assert(a + b =~= a);
        assert(leaf_tools(a) + leaf_tools(b) =~= leaf_tools(a));
    } else {
        assert((a + b).drop_last() =~= a + b.drop_last());
        lemma_leaf_tools_joined(a, b.drop_last());
        assert(leaf_tools(a + b) =~= leaf_tools(a) + leaf_tools(b));
    }
}

/// The tools of a level are those of its leaf commands.
proof fn lemma_tools_are_leaves(commands: Seq<(String, CommandEntry)>, prefix: Seq<Seq<char>>)
    ensures
        tools_of(trees(commands), prefix) == leaf_tools(leaves(commands, prefix)),
    decreases commands, commands.len(),
{
    reveal_with_fuel(leaves, 2);
    reveal_with_fuel(leaves_of, 2);
    reveal_with_fuel(tools_of, 2);
    reveal_with_fuel(tools_below, 2);
    if commands.len() > 0 {
        let head = commands.drop_last();
        let entry = commands.last().1;
        let path = prefix.push(commands.last().0@);
        assert(trees(commands).drop_last() =~= trees(head));
        assert(trees(commands).last() == (commands.last().0@, entry@));
        lemma_tools_are_leaves(head, prefix);
        lemma_leaf_tools_joined(leaves(head, prefix), leaves_of(entry, path));
        assert(tools_below(entry@, path) == leaf_tools(leaves_of(entry, path))) by {
            match entry {
                CommandEntry::Leaf(def) => {
                    let one = seq![(path, def)];
                    assert(one.drop_last() =~= Seq::empty());
                    assert(leaf_tools(one.drop_last()) =~= Seq::empty());
                    assert(leaf_tools(one) =~= tools_below(entry@, path));
                },
                CommandEntry::Group { description, commands: inner, middleware, output_policy } => {
                    lemma_group_view(description, inner, middleware, output_policy);
                    assert(decreases_to!(commands => commands.last().1));
                    lemma_tools_are_leaves(inner@, path);
                },
                CommandEntry::FetchGateway { .. } => {},
            }
        }
    }
}

/// Gives the names of the tools that commands expose.
pub fn tool_names(commands: &Vec<(String, CommandEntry)>) -> (r: Vec<String>)
    ensures
        texts(r@) == tools_of(trees(commands@), Seq::empty()),
{
    let none: Vec<String> = Vec::new();
    assert(texts(none@) =~= Seq::empty());
    let all = collect_leaves(commands, &none);
    let ghost want = found(all@);
    let mut out: Vec<String> = Vec::new();
    let mut i: usize = 0;
    assert(texts(out@) =~= leaf_tools(want.take(0)));
    while i < all.len()
        invariant
            i <= all@.len(),
            want == found(all@),
            texts(out@) == leaf_tools(want.take(i as int)),
        decreases all.len() - i,
    {
        let ghost was = texts(out@);
        assert(want.take(i + 1).drop_last() =~= want.take(i as int));
        assert(want.take(i + 1).last() == (texts(all@[i as int].path@), *all@[i as int].command));
        match exposed_name(&all[i].path, all[i].command) {
            Some(name) => {
                let ghost text = name@;
                out.push(name);
                assert(texts(out@) =~= was + seq![text]);
            },
            None => {
                assert(was + Seq::<Seq<char>>::empty() =~= was);
            },
        }
        i += 1;
    }
    assert(want.take(want.len() as int) =~= want);
    proof {
        lemma_tools_are_leaves(commands@, Seq::empty());
    }
    out
}

/// Finds the first name in a list that occurs before.
fn find_repeated(names: &Vec<String>) -> (r: Option<usize>)
    ensures
        match r {
            Some(i) => i < names@.len() && repeated_name(texts(names@), 0) == Some(
                names@[i as int]@,
            ),
            None => repeated_name(texts(names@), 0) is None,
        },
{
    let ghost all = texts(names@);
    let mut earlier: Vec<String> = Vec::new();
    let mut i: usize = 0;
    assert(texts(earlier@) =~= all.take(0));
    while i < names.len()
        invariant
            i <= names@.len(),
            all == texts(names@),
            texts(earlier@) == all.take(i as int),
            repeated_name(all, 0) == repeated_name(all, i as nat),
        decreases names.len() - i,
    {
        let ghost was = texts(earlier@);
        assert(all[i as int] == names@[i as int]@);
        if holds_text(&earlier, names[i].as_str()) {
            return Some(i);
        }
        earlier.push(names[i].clone());
        assert(texts(earlier@) =~= was.push(all[i as int]));
        assert(all.take(i + 1) =~= all.take(i as int).push(all[i as int]));
        i += 1;
    }
    None
}

/// The groups of the connected servers of a package.
pub open spec fn connected_groups(
    servers: Seq<(Seq<char>, Binding)>,
    connections: Seq<Connection>,
) -> Seq<(Seq<char>, Tree)> {
    server_groups(keys(servers), connections, servers.len())
}

/// Gathers what connecting the servers of a package came to: the commands of the
/// connected ones in groups under their names, and the status of each. Two tools of one
/// name make no catalog.
pub fn connect_agent_plugin(
    name: String,
    servers: &Vec<(String, AgentPluginMcpServer)>,
    connections: Vec<Connection>,
) -> (r: Result<ConnectedAgentPlugin, AgentPluginRuntimeError>)
    requires
        servers@.len() == connections@.len(),
    ensures
        ({
            let groups = connected_groups(bindings_view(servers@), connections@);
            match repeated_name(tools_of(groups, Seq::empty()), 0) {
                None => {
                    &&& r matches Ok(connected)
                    &&& connected.cli.name == name
                    &&& trees(connected.cli.commands@) == groups
                    &&& statuses(connected.servers@) == all_statuses(
                        bindings_view(servers@),
                        connections@,
                    )
                },
                Some(tool) => {
                    &&& r matches Err(AgentPluginRuntimeError::Catalog(text))
                    &&& text@ == "Duplicate MCP tool name: "@ + tool
                },
            }
        }),
{
    let connected = gather(name, servers, connections);
    let names = tool_names(&connected.cli.commands);
    match find_repeated(&names) {
        Some(i) => Err(
            AgentPluginRuntimeError::Catalog(cat("Duplicate MCP tool name: ", names[i].as_str())),
        ),
        None => Ok(connected),
    }
}

fn gather(
    name: String,
    servers: &Vec<(String, AgentPluginMcpServer)>,
    connections: Vec<Connection>,
) -> (r: ConnectedAgentPlugin)
    requires
        servers@.len() == connections@.len(),
    ensures
        r.cli.name == name,
        trees(r.cli.commands@) == connected_groups(bindings_view(servers@), connections@),
        statuses(r.servers@) == all_statuses(bindings_view(servers@), connections@),
{
    let ghost names = keys(bindings_view(servers@));
    let ghost all = connections@;
    let ghost want = all_statuses(bindings_view(servers@), all);
    let mut rest = connections;
    let mut cli = Cli::create(name);
    let mut out: Vec<AgentPluginMcpServerStatus> = Vec::new();
    let mut i: usize = 0;
    assert(trees(cli.commands@) =~= server_groups(names, all, 0));
    assert(statuses(out@) =~= want.take(0));
    assert(all.skip(0) =~= all);
    while i < servers.len()
        invariant
            i <= servers@.len(),
            servers@.len() == all.len(),
            names == keys(bindings_view(servers@)),
            want == all_statuses(bindings_view(servers@), all),
            rest@ == all.skip(i as int),
            cli.name == name,
            plain(cli),
            trees(cli.commands@) == server_groups(names, all, i as nat),
            statuses(out@) == want.take(i as int),
        decreases servers.len() - i,
    {
        let ghost was = statuses(out@);
        assert(names[i as int] == servers@[i as int].0@);
        assert(bindings_view(servers@)[i as int] == (servers@[i as int].0@, servers@[i as int].1@));
        assert(rest@[0] == all[i as int]);
        let transport = transport_kind(&servers[i].1);
        let connection = rest.remove(0);
        assert(rest@ =~= all.skip(i + 1));
        match connection {
            Connection::Connected(commands) => {
                let tool_count: usize = commands.len();
                let group = group_of(servers[i].0.clone(), commands);
                proof {
                    lemma_no_globals(cli);
                    lemma_all_fit(group);
                    lemma_trees(cli.commands@);
                    table::lemma_inserted_mapped(
                        keyed(cli.commands@),
                        group.name@,
                        mounted(group),
                        |e: CommandEntry| e@,
                    );
                    lemma_group_view(
                        group.description,
                        group.commands,
                        group.middleware,
                        group.output_policy,
                    );
                    assert(group.middleware@ =~= Seq::empty());
                }
                cli = cli.group(group);
                proof {
                    lemma_trees(cli.commands@);
                }
                out.push(
                    AgentPluginMcpServerStatus {
                        name: servers[i].0.clone(),
                        transport,
                        tool_count,
                        error: None,
                    },
                );
            },
            Connection::Refused(text) => {
                out.push(
                    AgentPluginMcpServerStatus {
                        name: servers[i].0.clone(),
                        transport,
                        tool_count: 0,
                        error: Some(text),
                    },
                );
            },
        }
        assert(statuses(out@) =~= was.push(want[i as int]));
        assert(want.take(i + 1) =~= want.take(i as int).push(want[i as int]));
        i += 1;
    }
    assert(want.take(want.len() as int) =~= want);
    ConnectedAgentPlugin { cli, servers: out }
}

// ---------------------------------------------------------------------------
// Laws
// ---------------------------------------------------------------------------

/// What a placeholder is replaced by is not looked at again: expansion goes on
/// behind the placeholder.
pub proof fn law_expansion_is_single_pass(
    front: Seq<char>,
    rest: Seq<char>,
    root: Seq<char>,
    data: Seq<char>,
)
    requires
        !front.contains('$'),
    ensures
        expanded(front + "${PLUGIN_ROOT}"@ + rest, root, data) == front + root + expanded(
            rest,
            root,
            data,
        ),
        expanded(front + "${PLUGIN_DATA}"@ + rest, root, data) == front + data + expanded(
            rest,
            root,
            data,
        ),
    decreases front.len(),
{
    let a = "${PLUGIN_ROOT}"@;
    let b = "${PLUGIN_DATA}"@;
    let e = expanded(rest, root, data);
    if front.len() == 0 {
        lemma_placeholder_step(rest, root, data);
        assert(front + a + rest =~= a + rest);
        assert(front + b + rest =~= b + rest);
        assert(front + root + e =~= root + e);
        assert(front + data + e =~= data + e);
    } else {
        let tail = front.skip(1);
        assert forall|i: int| 0 <= i < tail.len() implies tail[i] != '$' by {
            assert(tail[i] == front[i + 1]);
        }
        law_expansion_is_single_pass(tail, rest, root, data);
        assert((front + a + rest)[0] == front[0]);
        assert((front + b + rest)[0] == front[0]);
        lemma_plain_step(front + a + rest, root, data);
        lemma_plain_step(front + b + rest, root, data);
        assert((front + a + rest).skip(1) =~= tail + a + rest);
        assert((front + b + rest).skip(1) =~= tail + b + rest);
        assert(seq![front[0]] + (tail + root + e) =~= front + root + e);
        assert(seq![front[0]] + (tail + data + e) =~= front + data + e);
    }
}

/// A placeholder at the start is replaced, and expansion goes on behind it.
proof fn lemma_placeholder_step(rest: Seq<char>, root: Seq<char>, data: Seq<char>)
    ensures
        expanded("${PLUGIN_ROOT}"@ + rest, root, data) == root + expanded(rest, root, data),
        expanded("${PLUGIN_DATA}"@ + rest, root, data) == data + expanded(rest, root, data),
{
    reveal_strlit("${PLUGIN_ROOT}");
    reveal_strlit("${PLUGIN_DATA}");
    let a = "${PLUGIN_ROOT}"@;
    let b = "${PLUGIN_DATA}"@;
    let x = a + rest;
    let y = b + rest;
    assert(a =~= x.subrange(0, 14));
    assert(x.skip(14) =~= rest);
    assert(b =~= y.subrange(0, 14));
    assert(y.skip(14) =~= rest);
    assert(a[9] != b[9]);
    assert(!a.is_prefix_of(y)) by {
        if a.is_prefix_of(y) {
            assert(y.subrange(0, 14)[9] == a[9]);
        }
    }
}

/// A character that begins no placeholder stays.
proof fn lemma_plain_step(value: Seq<char>, root: Seq<char>, data: Seq<char>)
    requires
        value.len() > 0,
        value[0] != '$',
    ensures
        expanded(value, root, data) == seq![value[0]] + expanded(value.skip(1), root, data),
{
    reveal_strlit("${PLUGIN_ROOT}");
    reveal_strlit("${PLUGIN_DATA}");
    assert(!"${PLUGIN_ROOT}"@.is_prefix_of(value)) by {
        if "${PLUGIN_ROOT}"@.is_prefix_of(value) {
            assert(value.subrange(0, 14)[0] == value[0]);
        }
    }
    assert(!"${PLUGIN_DATA}"@.is_prefix_of(value)) by {
        if "${PLUGIN_DATA}"@.is_prefix_of(value) {
            assert(value.subrange(0, 14)[0] == value[0]);
        }
    }
}

/// A text without a dollar sign is its own expansion.
pub proof fn law_plain_text_is_kept(value: Seq<char>, root: Seq<char>, data: Seq<char>)
    requires
        !value.contains('$'),
    ensures
        expanded(value, root, data) == value,
    decreases value.len(),
{
    if value.len() > 0 {
        let tail = value.skip(1);
        assert forall|i: int| 0 <= i < tail.len() implies tail[i] != '$' by {
            assert(tail[i] == value[i + 1]);
        }
        lemma_plain_step(value, root, data);
        law_plain_text_is_kept(tail, root, data);
        assert(seq![value[0]] + tail =~= value);
    }
}

proof fn lemma_lookup_pushed(
    environment: Seq<(Seq<char>, Seq<char>)>,
    entry: (Seq<char>, Seq<char>),
    name: Seq<char>,
)
    ensures
        lookup(environment.push(entry), name) == (match lookup(environment, name) {
            Some(value) => Some(value),
            None => if entry.0 == name {
                Some(entry.1)
            } else {
                None
            },
        }),
{
    let more = environment.push(entry);
    assert(keys(more) =~= keys(environment).push(entry.0));
    table::lemma_position_from(keys(environment), name, 0);
    table::lemma_position_from(keys(more), name, 0);
    if let Some(i) = table::position_from(keys(environment), name, 0) {
        assert(keys(more)[i as int] == keys(environment)[i as int]);
        if let Some(j) = table::position_from(keys(more), name, 0) {
            if j < i {
                assert(keys(more)[j as int] == keys(environment)[j as int]);
            }
        }
    } else {
        assert(keys(more)[environment.len() as int] == entry.0);
        if let Some(j) = table::position_from(keys(more), name, 0) {
            if j < environment.len() {
                assert(keys(more)[j as int] == keys(environment)[j as int]);
            }
        }
    }
}

/// Taking a variable out leaves the others as they are.
proof fn lemma_unset_keeps(
    environment: Seq<(Seq<char>, Seq<char>)>,
    name: Seq<char>,
    ignore_case: bool,
    other: Seq<char>,
)
    requires
        !same_variable(other, name, ignore_case),
    ensures
        lookup(unset(environment, name, ignore_case), other) == lookup(environment, other),
    decreases environment.len(),
{
    reveal(Seq::filter);
    if environment.len() > 0 {
        let head = environment.drop_last();
        lemma_unset_keeps(head, name, ignore_case, other);
        assert(head.push(environment.last()) =~= environment);
        lemma_lookup_pushed(head, environment.last(), other);
        lemma_lookup_pushed(
            unset(head, name, ignore_case),
            environment.last(),
            other,
        );
    }
}

/// The value of a variable that is set is what it was set to, under no other spelling
/// of its name, and the others keep theirs.
pub proof fn law_variable_is_set(
    environment: Seq<(Seq<char>, Seq<char>)>,
    name: Seq<char>,
    value: Seq<char>,
    ignore_case: bool,
    other: Seq<char>,
)
    ensures
        lookup(assigned(environment, name, value, ignore_case), other) == (if other == name {
            Some(value)
        } else if same_variable(other, name, ignore_case) {
            None
        } else {
            lookup(environment, other)
        }),
{
    let rest = unset(environment, name, ignore_case);
    table::lemma_lookup_inserted(rest, name, value, other);
    if same_variable(other, name, ignore_case) {
        let pred = |e: (Seq<char>, Seq<char>)| !same_variable(e.0, name, ignore_case);
        table::lemma_position_from(keys(rest), other, 0);
        if let Some(i) = table::position_from(keys(rest), other, 0) {
            environment.lemma_filter_pred(pred, i as int);
        }
    } else {
        lemma_unset_keeps(environment, name, ignore_case, other);
    }
}

/// The reserved variables of a server hold the root and the data directory,
/// whatever is configured, and no other spelling of their names is left.
pub proof fn law_reserved_variables_win(
    base: Seq<(Seq<char>, Seq<char>)>,
    configured: Seq<(Seq<char>, Seq<char>)>,
    root: Seq<char>,
    data: Seq<char>,
    ignore_case: bool,
    name: Seq<char>,
)
    ensures
        ({
            let environment = server_environment(base, configured, root, data, ignore_case);
            &&& lookup(environment, "PLUGIN_ROOT"@) == Some(root)
            &&& lookup(environment, "PLUGIN_DATA"@) == Some(data)
            &&& same_variable(name, "PLUGIN_ROOT"@, ignore_case) && name != "PLUGIN_ROOT"@
                ==> lookup(environment, name) is None
            &&& same_variable(name, "PLUGIN_DATA"@, ignore_case) && name != "PLUGIN_DATA"@
                ==> lookup(environment, name) is None
        }),
{
    let laid = overlaid(base, configured, root, data, ignore_case);
    let one = assigned(laid, "PLUGIN_ROOT"@, root, ignore_case);
    reveal_strlit("PLUGIN_ROOT");
    reveal_strlit("PLUGIN_DATA");
    assert("PLUGIN_ROOT"@[7] != "PLUGIN_DATA"@[7]);
    assert(lowered("PLUGIN_ROOT"@)[7] != lowered("PLUGIN_DATA"@)[7]);
    law_variable_is_set(laid, "PLUGIN_ROOT"@, root, ignore_case, "PLUGIN_ROOT"@);
    law_variable_is_set(one, "PLUGIN_DATA"@, data, ignore_case, "PLUGIN_ROOT"@);
    law_variable_is_set(one, "PLUGIN_DATA"@, data, ignore_case, "PLUGIN_DATA"@);
    law_variable_is_set(laid, "PLUGIN_ROOT"@, root, ignore_case, name);
    law_variable_is_set(one, "PLUGIN_DATA"@, data, ignore_case, name);
}

/// The first groups depend on the first servers alone.
proof fn lemma_first_groups(
    names: Seq<Seq<char>>,
    connections: Seq<Connection>,
    other_names: Seq<Seq<char>>,
    other_connections: Seq<Connection>,
    n: nat,
)
    requires
        forall|k: int| 0 <= k < n ==> names[k] == other_names[k],
        forall|k: int| 0 <= k < n ==> connections[k] == other_connections[k],
    ensures
        server_groups(names, connections, n) == server_groups(other_names, other_connections, n),
    decreases n,
{
    if n > 0 {
        lemma_first_groups(names, connections, other_names, other_connections, (n - 1) as nat);
    }
}

proof fn lemma_refused_has_no_group(
    names: Seq<Seq<char>>,
    connections: Seq<Connection>,
    refused: int,
    n: nat,
)
    requires
        0 <= refused < n <= connections.len(),
        names.len() == connections.len(),
        connections[refused] is Refused,
    ensures
        server_groups(names, connections, n) == server_groups(
            names.remove(refused),
            connections.remove(refused),
            (n - 1) as nat,
        ),
    decreases n,
{
    let other_names = names.remove(refused);
    let other_connections = connections.remove(refused);
    if n - 1 == refused {
        lemma_first_groups(names, connections, other_names, other_connections, (n - 1) as nat);
    } else {
        lemma_refused_has_no_group(names, connections, refused, (n - 1) as nat);
        assert(other_names[n - 2] == names[n - 1]);
        assert(other_connections[n - 2] == connections[n - 1]);
    }
}

/// A server that could not be connected, wherever it stands, leaves the groups and the
/// statuses of the others as they are without it.
pub proof fn law_refused_servers_are_isolated(
    servers: Seq<(Seq<char>, Binding)>,
    connections: Seq<Connection>,
    refused: int,
)
    requires
        servers.len() == connections.len(),
        0 <= refused < connections.len(),
        connections[refused] is Refused,
    ensures
        connected_groups(servers, connections) == connected_groups(
            servers.remove(refused),
            connections.remove(refused),
        ),
        all_statuses(servers, connections).remove(refused) == all_statuses(
            servers.remove(refused),
            connections.remove(refused),
        ),
{
    assert(keys(servers.remove(refused)) =~= keys(servers).remove(refused));
    lemma_refused_has_no_group(keys(servers), connections, refused, servers.len());
    assert(all_statuses(servers, connections).remove(refused) =~= all_statuses(
        servers.remove(refused),
        connections.remove(refused),
    ));
}

/// Every server has its status, in the order of the servers. It holds an error exactly
/// when the server could not be connected, and then no tool is counted.
pub proof fn law_statuses_tell_failures(
    servers: Seq<(Seq<char>, Binding)>,
    connections: Seq<Connection>,
    i: int,
)
    requires
        servers.len() == connections.len(),
        0 <= i < servers.len(),
    ensures
        all_statuses(servers, connections).len() == servers.len(),
        ({
            let status = all_statuses(servers, connections)[i];
            &&& status.name == servers[i].0
            &&& status.error is Some <==> connections[i] is Refused
            &&& status.error is Some ==> status.tool_count == 0
        }),
{
}

/// No two tools of a connected package have the same name.
pub proof fn law_connected_tools_differ(
    servers: Seq<(Seq<char>, Binding)>,
    connections: Seq<Connection>,
    i: int,
    j: int,
)
    requires
        ({
            let tools = tools_of(connected_groups(servers, connections), Seq::empty());
            repeated_name(tools, 0) is None && 0 <= i < j < tools.len()
        }),
    ensures
        ({
            let tools = tools_of(connected_groups(servers, connections), Seq::empty());
            tools[i] != tools[j]
        }),
{
    law_unique_names_differ(
        tools_of(connected_groups(servers, connections), Seq::empty()),
        0,
        i,
        j,
    );
}

/// A server that is started in the data directory is started inside it.
pub proof fn law_servers_start_inside(
    server: StdioBinding,
    data: Seq<char>,
    real_data: Seq<char>,
    real_cwd: Seq<char>,
)
    requires
        within(server.resolved_cwd, data),
        launch_cwd(server, data, Some((real_data, real_cwd))) is Some,
    ensures
        within(launch_cwd(server, data, Some((real_data, real_cwd)))->Some_0, real_data),
{
}

/// A variable that a server is configured with is set to its value, with the directories
/// put in; one that it does not name is what it was.
pub proof fn law_configured_variables_are_set(
    base: Seq<(Seq<char>, Seq<char>)>,
    configured: Seq<(Seq<char>, Seq<char>)>,
    root: Seq<char>,
    data: Seq<char>,
    ignore_case: bool,
    name: Seq<char>,
    value: Seq<char>,
    other: Seq<char>,
)
    ensures
        ({
            let before = overlaid(base, configured, root, data, ignore_case);
            let after = overlaid(base, configured.push((name, value)), root, data, ignore_case);
            &&& lookup(after, name) == Some(expanded(value, root, data))
            &&& !same_variable(other, name, ignore_case) && other != name ==> lookup(after, other)
                == lookup(before, other)
            &&& overlaid(base, Seq::empty(), root, data, ignore_case) == base
        }),
{
    assert(configured.push((name, value)).drop_last() =~= configured);
    let before = overlaid(base, configured, root, data, ignore_case);
    law_variable_is_set(before, name, expanded(value, root, data), ignore_case, name);
    law_variable_is_set(before, name, expanded(value, root, data), ignore_case, other);
}

/// A server that was reached is a group under its name that holds its tools; one that was
/// not is no group, and each status counts the tools.
pub proof fn law_reached_servers_become_groups(
    names: Seq<Seq<char>>,
    connections: Seq<Connection>,
    n: nat,
    other: Seq<char>,
)
    requires
        n < names.len(),
        n < connections.len(),
    ensures
        ({
            let before = server_groups(names, connections, n);
            let after = server_groups(names, connections, n + 1);
            &&& connections[n as int] is Refused ==> after == before
            &&& connections[n as int] matches Connection::Connected(commands) ==> (lookup(
                after,
                names[n as int],
            ) matches Some(Tree::Group { commands: held, .. }) && held == server_commands(
                commands@,
            ))
            &&& other != names[n as int] ==> lookup(after, other) == lookup(before, other)
        }),
{
    let before = server_groups(names, connections, n);
    if let Connection::Connected(commands) = connections[n as int] {
        let group = Tree::Group {
            description: None,
            commands: server_commands(commands@),
            middleware: Seq::empty(),
            policy: None,
        };
        crate::table::lemma_lookup_inserted(before, names[n as int], group, names[n as int]);
        crate::table::lemma_lookup_inserted(before, names[n as int], group, other);
    }
}

/// A tool of a server is a command under its name, as it was given last.
pub proof fn law_tools_become_commands(
    all: Seq<(String, CommandDef)>,
    tool: (String, CommandDef),
    other: Seq<char>,
)
    ensures
        lookup(server_commands(all.push(tool)), tool.0@) == Some(Tree::Leaf(tool.1)),
        other != tool.0@ ==> lookup(server_commands(all.push(tool)), other) == lookup(
            server_commands(all),
            other,
        ),
{
    assert(all.push(tool).drop_last() =~= all);
    let before = server_commands(all);
    crate::table::lemma_lookup_inserted(before, tool.0@, Tree::Leaf(tool.1), tool.0@);
    crate::table::lemma_lookup_inserted(before, tool.0@, Tree::Leaf(tool.1), other);
}

/// The status of a server names its transport, and counts the tools of one that was
/// reached.
pub proof fn law_statuses_count_tools(name: Seq<char>, server: Binding, connection: Connection)
    ensures
        ({
            let status = status_of(name, server, connection);
            &&& server is Stdio <==> status.transport is Stdio
            &&& server is StreamableHttp <==> status.transport is StreamableHttp
            &&& server is Sse <==> status.transport is Sse
            &&& connection matches Connection::Connected(commands) ==> status.tool_count
                == commands@.len() && status.error is None
            &&& connection matches Connection::Refused(text) ==> status.error == Some(text@)
        }),
{
}

/// A server starts in the directory it was given, unless that is in the data of the
/// plugin and has come to lead out of it.
pub proof fn law_servers_start_where_configured(
    server: StdioBinding,
    data: Seq<char>,
    real_data: Seq<char>,
    real_cwd: Seq<char>,
)
    ensures
        !within(server.resolved_cwd, data) ==> launch_cwd(server, data, None) == Some(
            server.resolved_cwd,
        ) && launch_cwd(server, data, Some((real_data, real_cwd))) == Some(server.resolved_cwd),
        within(server.resolved_cwd, data) && within(real_cwd, real_data) ==> launch_cwd(
            server,
            data,
            Some((real_data, real_cwd)),
        ) == Some(real_cwd),
        within(server.resolved_cwd, data) && !within(real_cwd, real_data) ==> launch_cwd(
            server,
            data,
            Some((real_data, real_cwd)),
        ) is None,
        within(server.resolved_cwd, data) ==> launch_cwd(server, data, None) is None,
{
}

/// The tools of a level are those of its entries, in order: a command is one under its
/// tool name, and a group has those of its commands.
pub proof fn law_tools_of_a_tree_are_named(
    a: Seq<(Seq<char>, Tree)>,
    b: Seq<(Seq<char>, Tree)>,
    one: (Seq<char>, Tree),
    prefix: Seq<Seq<char>>,
)
    ensures
        tools_of(a + b, prefix) == tools_of(a, prefix) + tools_of(b, prefix),
        one.1 matches Tree::Leaf(def) ==> (tool_name(prefix.push(one.0), def) matches Some(name) ==> tools_of(seq![one], prefix)
            == seq![name]),
        one.1 matches Tree::Leaf(def) ==> (tool_name(prefix.push(one.0), def) is None ==> tools_of(seq![one], prefix).len()
            == 0),
        one.1 matches Tree::Group { commands, .. } ==> tools_of(seq![one], prefix) == tools_of(commands, prefix.push(one.0)),
        one.1 is Gateway ==> tools_of(seq![one], prefix).len() == 0,
    decreases b.len(),
{
    reveal_with_fuel(tools_of, 2);
    assert(seq![one].drop_last() =~= Seq::empty());
    assert(tools_of(seq![one].drop_last(), prefix) =~= Seq::empty());
    if b.len() == 0 {
        assert(a + b =~= a);
        assert(tools_of(a, prefix) + tools_of(b, prefix) =~= tools_of(a, prefix));
    } else {
        law_tools_of_a_tree_are_named(a, b.drop_last(), one, prefix);
        assert((a + b).drop_last() =~= a + b.drop_last());
        assert((a + b).last() == b.last());
        assert(tools_of(a + b, prefix) =~= tools_of(a, prefix) + tools_of(b, prefix));
    }
}


} // verus!
