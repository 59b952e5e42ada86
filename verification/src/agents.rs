//! AI coding agents and the skills that are installed for them.

use vstd::prelude::*;
use crate::agent_plugin::paths::{
    components, from_root, is_one_path, one_path, path_components, settled, steps,
};
use crate::agent_plugin::names::{text_up_to, up_to};
use crate::config::{join_path, joined};
use crate::text::{
    at_byte, cat, chars_of, find_char_from, lemma_find_char_from, lines, lowered, opt_text, replace,
    replaced, same, split_lines, strip_prefix, text_of, text_up_to_byte, texts, to_ascii_lowercase,
    trim, trim_end, trim_start, up_to_byte, utf8_len, utf8_length,
};

verus! {

/// Configuration for a single AI coding agent.
#[derive(Debug, Clone)]
pub struct Agent {
    /// Display name.
    pub name: String,
    /// Absolute path to the global skills directory.
    pub global_skills_dir: String,
    /// Project-relative skills directory path (e.g. ".cursor/skills").
    pub project_skills_dir: String,
    /// Whether this agent uses the canonical `.agents/skills` path.
    pub universal: bool,
    /// The path that exists where the agent is installed.
    pub marker: String,
}

/// What an agent means.
pub struct AgentModel {
    /// Display name.
    pub name: Seq<char>,
    /// Global skills directory.
    pub global_skills_dir: Seq<char>,
    /// Project-relative skills directory.
    pub project_skills_dir: Seq<char>,
    /// Whether the agent uses the canonical path.
    pub universal: bool,
    /// The path that exists where the agent is installed.
    pub marker: Seq<char>,
}

impl View for Agent {
    type V = AgentModel;

    open spec fn view(&self) -> AgentModel {
        AgentModel {
            name: self.name@,
            global_skills_dir: self.global_skills_dir@,
            project_skills_dir: self.project_skills_dir@,
            universal: self.universal,
            marker: self.marker@,
        }
    }
}

/// What agents mean.
pub open spec fn agents_view(v: Seq<Agent>) -> Seq<AgentModel> {
    v.map_values(|a: Agent| a@)
}

impl Agent {
    /// Returns true if the agent appears to be installed: the path that marks it is
    /// one of those that exist.
    pub fn detect(&self, present: &Vec<String>) -> (r: bool)
        ensures
            r == texts(present@).contains(self@.marker),
    {
        crate::cli::tree::holds_text(present, self.marker.as_str())
    }
}

/// Options for an installation.
#[derive(Debug, Clone)]
pub struct InstallOptions {
    /// Override detected agents (defaults to auto-detection).
    pub agents: Option<Vec<Agent>>,
    /// Working directory for project-local installs. Defaults to current dir.
    pub cwd: Option<String>,
    /// Install globally (`true`) or project-local (`false`). Defaults to `true`.
    pub global: Option<bool>,
}

impl Default for InstallOptions {
    fn default() -> (r: Self)
        ensures
            r.agents is None && r.cwd is None && r.global is None,
    {
        InstallOptions { agents: None, cwd: None, global: None }
    }
}

/// How a skill was installed for a non-universal agent.
#[derive(Debug, Clone, Copy, PartialEq, Eq, Structural)]
pub enum InstallMode {
    /// By a symbolic link.
    Symlink,
    /// By a copy.
    Copy,
}

/// Details about a single agent's install for a skill.
#[derive(Debug, Clone)]
pub struct AgentInstall {
    /// Agent display name.
    pub agent: String,
    /// Installed path.
    pub path: String,
    /// Whether it was symlinked or copied.
    pub mode: InstallMode,
}

/// Result of an installation.
#[derive(Debug, Clone)]
pub struct InstallResult {
    /// Canonical install paths.
    pub paths: Vec<String>,
    /// Per-agent install details (non-universal agents only).
    pub agents: Vec<AgentInstall>,
}

/// Options for a removal.
#[derive(Debug, Clone)]
pub struct RemoveOptions {
    /// Remove globally. Defaults to `true`.
    pub global: Option<bool>,
    /// Working directory for project-local removes.
    pub cwd: Option<String>,
}

impl Default for RemoveOptions {
    fn default() -> (r: Self)
        ensures
            r.global is None && r.cwd is None,
    {
        RemoveOptions { global: None, cwd: None }
    }
}

// ---------------------------------------------------------------------------
// Directories
// ---------------------------------------------------------------------------

/// The environment variable that moves the directory of one coding agent.
pub const CLAUDE_CONFIG_DIR: &'static str = "CLAUDE_CONFIG_DIR";

/// The environment variable that moves the directory of another coding agent.
pub const CODEX_HOME: &'static str = "CODEX_HOME";

/// The name that a tool has in paths: the first word of its variable, in lowercase.
pub open spec fn tool_slug(variable: Seq<char>) -> Seq<char> {
    lowered(up_to(variable, '_'))
}

/// The name that a tool has in texts: the first word of its variable, in lowercase but
/// for its first letter.
pub open spec fn tool_title(variable: Seq<char>) -> Seq<char> {
    let word = up_to(variable, '_');
    if word.len() == 0 {
        word
    } else {
        seq![word[0]] + lowered(word.skip(1))
    }
}

/// Gives the name that a tool has in paths.
pub fn slug_of(variable: &str) -> (r: String)
    ensures
        r@ == tool_slug(variable@),
{
    to_ascii_lowercase(text_up_to(variable, '_').as_str())
}

fn title_of(variable: &str) -> (r: String)
    ensures
        r@ == tool_title(variable@),
{
    let word = chars_of(text_up_to(variable, '_').as_str());
    if word.len() == 0 {
        return String::new();
    }
    let rest = to_ascii_lowercase(text_of(&word, 1, word.len()).as_str());
    assert(word@.subrange(1, word@.len() as int) =~= word@.skip(1));
    let mut out = text_of(&word, 0, 1);
    assert(word@.subrange(0, 1) =~= seq![word@[0]]);
    out.append(rest.as_str());
    out
}

/// How the slug of the first tool begins.
proof fn lemma_tool_slug()
    ensures
        tool_slug(CLAUDE_CONFIG_DIR@).len() == 6,
        tool_slug(CLAUDE_CONFIG_DIR@)[1] == 'l',
{
    reveal_strlit("CLAUDE_CONFIG_DIR");
    let s = "CLAUDE_CONFIG_DIR"@;
    assert(s[6] == '_' && s[1] == 'L');
    lemma_find_char_from(s, '_', 0);
    assert(s[0] != '_' && s[1] != '_' && s[2] != '_' && s[3] != '_' && s[4] != '_' && s[5] != '_');
    assert(find_char_from(s, '_', 0) == Some(6nat));
}

/// The hidden directory that is named by `slug`.
pub open spec fn hidden(slug: Seq<char>) -> Seq<char> {
    "."@ + slug
}

fn hidden_dir(slug: &str) -> (r: String)
    ensures
        r@ == hidden(slug@),
{
    cat(".", slug)
}

/// The directories in which agents keep their files.
#[derive(Debug, Clone)]
pub struct Homes {
    /// The home directory.
    pub home: String,
    /// The directory of configurations.
    pub config: String,
    /// The directory that [`CLAUDE_CONFIG_DIR`] moves.
    pub claude: String,
    /// The directory that [`CODEX_HOME`] moves.
    pub codex: String,
}

/// The text of a variable that is neither missing nor empty, or a default.
pub open spec fn set_or(value: Option<Seq<char>>, default: Seq<char>) -> Seq<char> {
    match value {
        Some(text) if text.len() > 0 => text,
        _ => default,
    }
}

/// A variable without white space around it.
pub open spec fn trimmed(value: Option<Seq<char>>) -> Option<Seq<char>> {
    match value {
        Some(text) => Some(trim_end(trim_start(text))),
        None => None,
    }
}

fn text_or(value: &Option<String>, default: String) -> (r: String)
    ensures
        r@ == set_or(opt_text(*value), default@),
{
    match value {
        Some(text) => {
            if chars_of(text.as_str()).len() > 0 {
                text.clone()
            } else {
                default
            }
        },
        None => default,
    }
}

fn trim_opt(value: &Option<String>) -> (r: Option<String>)
    ensures
        opt_text(r) == trimmed(opt_text(*value)),
{
    match value {
        Some(text) => Some(trim(text.as_str())),
        None => None,
    }
}

/// Finds the directories in which agents keep their files, from the home directory
/// and the variables `XDG_CONFIG_HOME`, [`CLAUDE_CONFIG_DIR`] and [`CODEX_HOME`], as far
/// as they are known.
pub fn find_homes(
    home: &Option<String>,
    config: &Option<String>,
    claude: &Option<String>,
    codex: &Option<String>,
) -> (r: Homes)
    ensures
        ({
            let base = match opt_text(*home) {
                Some(path) => path,
                None => "~"@,
            };
            &&& r.home@ == base
            &&& r.config@ == set_or(opt_text(*config), joined(base, ".config"@))
            &&& r.claude@ == set_or(trimmed(opt_text(*claude)), joined(base, hidden(tool_slug(CLAUDE_CONFIG_DIR@))))
            &&& r.codex@ == set_or(trimmed(opt_text(*codex)), joined(base, hidden(tool_slug(CODEX_HOME@))))
        }),
{
    let base = match home {
        Some(path) => path.clone(),
        None => "~".to_string(),
    };
    let config = text_or(config, join_path(base.as_str(), ".config"));
    let claude = text_or(&trim_opt(claude), join_path(base.as_str(), hidden_dir(slug_of(CLAUDE_CONFIG_DIR).as_str()).as_str()));
    let codex = text_or(&trim_opt(codex), join_path(base.as_str(), hidden_dir(slug_of(CODEX_HOME).as_str()).as_str()));
    Homes { home: base, config, claude, codex }
}

// ---------------------------------------------------------------------------
// Agent definitions
// ---------------------------------------------------------------------------

/// An agent that uses the canonical path in projects.
pub open spec fn universal_agent(name: Seq<char>, dir: Seq<char>, marker: Seq<char>) -> AgentModel {
    AgentModel {
        name,
        global_skills_dir: joined(dir, "skills"@),
        project_skills_dir: ".agents/skills"@,
        universal: true,
        marker,
    }
}

/// The name of the coding agent that is made for a model.
pub open spec fn code_agent(model: Seq<char>) -> Seq<char> {
    model + " Code"@
}

/// An agent that has a path of its own in projects: the skills directory in the
/// hidden directory that is named by `slug`.
pub open spec fn own_agent(name: Seq<char>, dir: Seq<char>, slug: Seq<char>) -> AgentModel {
    AgentModel {
        name,
        global_skills_dir: joined(dir, "skills"@),
        project_skills_dir: hidden(slug) + "/skills"@,
        universal: false,
        marker: dir,
    }
}

/// The agents that use the canonical path in projects.
pub open spec fn universal_agents(homes: Homes) -> Seq<AgentModel> {
    let home = homes.home@;
    let config = homes.config@;
    Seq::empty().push(
        universal_agent("Amp"@, joined(config, "agents"@), joined(config, "amp"@)),
    ).push(universal_agent("Cline"@, joined(home, ".agents"@), joined(home, ".cline"@))).push(
        universal_agent("Codex"@, homes.codex@, homes.codex@),
    ).push(universal_agent("Cursor"@, joined(home, ".cursor"@), joined(home, ".cursor"@))).push(
        universal_agent("Gemini CLI"@, joined(home, ".gemini"@), joined(home, ".gemini"@)),
    ).push(
        universal_agent("GitHub Copilot"@, joined(home, ".copilot"@), joined(home, ".copilot"@)),
    ).push(
        universal_agent("Kimi CLI"@, joined(config, "agents"@), joined(home, ".kimi"@)),
    ).push(
        universal_agent("OpenCode"@, joined(config, "opencode"@), joined(config, "opencode"@)),
    )
}

/// The agents that have a path of their own in projects.
pub open spec fn own_agents(homes: Homes) -> Seq<AgentModel> {
    let home = homes.home@;
    let config = homes.config@;
    Seq::empty().push(own_agent(code_agent(tool_title(CLAUDE_CONFIG_DIR@)), homes.claude@, tool_slug(CLAUDE_CONFIG_DIR@))).push(
        own_agent(
            "Windsurf"@,
            joined(joined(home, ".codeium"@), "windsurf"@),
            "windsurf"@,
        ),
    ).push(own_agent("Continue"@, joined(home, ".continue"@), "continue"@)).push(
        own_agent("Roo"@, joined(home, ".roo"@), "roo"@),
    ).push(own_agent("Kilo"@, joined(home, ".kilocode"@), "kilocode"@)).push(
        own_agent("Goose"@, joined(config, "goose"@), "goose"@),
    ).push(own_agent("Augment"@, joined(home, ".augment"@), "augment"@)).push(
        own_agent("Trae"@, joined(home, ".trae"@), "trae"@),
    ).push(own_agent("Junie"@, joined(home, ".junie"@), "junie"@)).push(
        own_agent("Crush"@, joined(config, "crush"@), "crush"@),
    ).push(own_agent("Kiro CLI"@, joined(home, ".kiro"@), "kiro"@)).push(
        own_agent(code_agent("Qwen"@), joined(home, ".qwen"@), "qwen"@),
    ).push(own_agent("OpenHands"@, joined(home, ".openhands"@), "openhands"@))
}

/// All known agents.
pub open spec fn known_agents(homes: Homes) -> Seq<AgentModel> {
    universal_agents(homes) + own_agents(homes)
}

fn push_universal(out: &mut Vec<Agent>, name: &str, dir: String, marker: String)
    ensures
        agents_view(final(out)@) == agents_view(old(out)@).push(
            universal_agent(name@, dir@, marker@),
        ),
{
    let ghost was = agents_view(out@);
    let agent = Agent {
        name: name.to_string(),
        global_skills_dir: join_path(dir.as_str(), "skills"),
        project_skills_dir: ".agents/skills".to_string(),
        universal: true,
        marker,
    };
    let ghost model = agent@;
    out.push(agent);
    assert(agents_view(out@) =~= was.push(model));
}

fn push_own(out: &mut Vec<Agent>, name: String, dir: String, slug: &str)
    ensures
        agents_view(final(out)@) == agents_view(old(out)@).push(
            own_agent(name@, dir@, slug@),
        ),
{
    let ghost was = agents_view(out@);
    let agent = Agent {
        name,
        global_skills_dir: join_path(dir.as_str(), "skills"),
        project_skills_dir: cat(hidden_dir(slug).as_str(), "/skills"),
        universal: false,
        marker: dir,
    };
    let ghost model = agent@;
    out.push(agent);
    assert(agents_view(out@) =~= was.push(model));
}

fn list_universal_agents(homes: &Homes) -> (r: Vec<Agent>)
    ensures
        agents_view(r@) == universal_agents(*homes),
{
    let home = homes.home.as_str();
    let config = homes.config.as_str();
    let mut out: Vec<Agent> = Vec::new();
    assert(agents_view(out@) =~= Seq::empty());
    push_universal(&mut out, "Amp", join_path(config, "agents"), join_path(config, "amp"));
    push_universal(&mut out, "Cline", join_path(home, ".agents"), join_path(home, ".cline"));
    push_universal(&mut out, "Codex", homes.codex.clone(), homes.codex.clone());
    push_universal(&mut out, "Cursor", join_path(home, ".cursor"), join_path(home, ".cursor"));
    push_universal(&mut out, "Gemini CLI", join_path(home, ".gemini"), join_path(home, ".gemini"));
    push_universal(
        &mut out,
        "GitHub Copilot",
        join_path(home, ".copilot"),
        join_path(home, ".copilot"),
    );
    push_universal(&mut out, "Kimi CLI", join_path(config, "agents"), join_path(home, ".kimi"));
    push_universal(
        &mut out,
        "OpenCode",
        join_path(config, "opencode"),
        join_path(config, "opencode"),
    );
    out
}

fn list_own_agents(homes: &Homes) -> (r: Vec<Agent>)
    ensures
        agents_view(r@) == own_agents(*homes),
{
    let home = homes.home.as_str();
    let config = homes.config.as_str();
    let mut out: Vec<Agent> = Vec::new();
    assert(agents_view(out@) =~= Seq::empty());
    push_own(
        &mut out,
        cat(title_of(CLAUDE_CONFIG_DIR).as_str(), " Code"),
        homes.claude.clone(),
        slug_of(CLAUDE_CONFIG_DIR).as_str(),
    );
    let codeium = join_path(home, ".codeium");
    push_own(&mut out, "Windsurf".to_string(), join_path(codeium.as_str(), "windsurf"), "windsurf");
    push_own(&mut out, "Continue".to_string(), join_path(home, ".continue"), "continue");
    push_own(&mut out, "Roo".to_string(), join_path(home, ".roo"), "roo");
    push_own(&mut out, "Kilo".to_string(), join_path(home, ".kilocode"), "kilocode");
    push_own(&mut out, "Goose".to_string(), join_path(config, "goose"), "goose");
    push_own(&mut out, "Augment".to_string(), join_path(home, ".augment"), "augment");
    push_own(&mut out, "Trae".to_string(), join_path(home, ".trae"), "trae");
    push_own(&mut out, "Junie".to_string(), join_path(home, ".junie"), "junie");
    push_own(&mut out, "Crush".to_string(), join_path(config, "crush"), "crush");
    push_own(&mut out, "Kiro CLI".to_string(), join_path(home, ".kiro"), "kiro");
    push_own(&mut out, cat("Qwen", " Code"), join_path(home, ".qwen"), "qwen");
    push_own(&mut out, "OpenHands".to_string(), join_path(home, ".openhands"), "openhands");
    out
}

/// Returns all known agent definitions.
pub fn all_agents(homes: &Homes) -> (r: Vec<Agent>)
    ensures
        agents_view(r@) == known_agents(*homes),
{
    let mut out = list_universal_agents(homes);
    let mut own = list_own_agents(homes);
    let ghost a = agents_view(out@);
    let ghost b = agents_view(own@);
    out.append(&mut own);
    assert(agents_view(out@) =~= a + b);
    out
}

/// The agents whose mark is among the paths that exist.
pub open spec fn installed(all: Seq<AgentModel>, present: Seq<Seq<char>>) -> Seq<AgentModel>
    decreases all.len(),
{
    if all.len() == 0 {
        Seq::empty()
    } else {
        let before = installed(all.drop_last(), present);
        if present.contains(all.last().marker) {
            before.push(all.last())
        } else {
            before
        }
    }
}

/// Returns only agents that are detected as installed: those whose mark is among
/// the paths that exist.
pub fn detect(homes: &Homes, present: &Vec<String>) -> (r: Vec<Agent>)
    ensures
        agents_view(r@) == installed(known_agents(*homes), texts(present@)),
{
    let mut rest = all_agents(homes);
    let ghost all = agents_view(rest@);
    let mut out: Vec<Agent> = Vec::new();
    let n: usize = rest.len();
    let mut i: usize = 0;
    assert(agents_view(out@) =~= installed(all.take(0), texts(present@)));
    assert(all.skip(0) =~= all);
    while i < n
        invariant
            i <= n,
            n == all.len(),
            agents_view(rest@) == all.skip(i as int),
            agents_view(out@) == installed(all.take(i as int), texts(present@)),
        decreases n - i,
    {
        assert(all.take(i + 1).drop_last() =~= all.take(i as int));
        let ghost left = agents_view(rest@);
        let ghost was = agents_view(out@);
        assert(left.len() == rest@.len());
        assert(left[0] == all[i as int]);
        let agent = rest.remove(0);
        assert(agents_view(rest@) =~= left.skip(1));
        assert(all.skip(i as int).skip(1) =~= all.skip(i + 1));
        if agent.detect(present) {
            out.push(agent);
            assert(agents_view(out@) =~= was.push(all[i as int]));
        }
        i += 1;
    }
    assert(all.take(all.len() as int) =~= all);
    out
}

// ---------------------------------------------------------------------------
// Skill discovery
// ---------------------------------------------------------------------------

/// The name that the first of the lines with one gives, from one of them on.
pub open spec fn name_in(all: Seq<Seq<char>>, from: nat) -> Option<Seq<char>>
    decreases all.len() - from,
{
    if from >= all.len() {
        None
    } else {
        let line = all[from as int];
        let name = trim_end(trim_start(line.skip("name:"@.len() as int)));
        if "name:"@.is_prefix_of(line) && name.len() > 0 {
            Some(name)
        } else {
            name_in(all, from + 1)
        }
    }
}

/// Extracts the skill name from SKILL.md frontmatter (`name: ...`).
pub fn extract_skill_name(content: &str) -> (r: Option<String>)
    ensures
        opt_text(r) == name_in(lines(content@), 0),
{
    let all = split_lines(content);
    let ghost want = texts(all@);
    let mut i: usize = 0;
    while i < all.len()
        invariant
            i <= all@.len(),
            want == texts(all@),
            want == lines(content@),
            name_in(want, i as nat) == name_in(want, 0),
        decreases all.len() - i,
    {
        assert(want[i as int] == all@[i as int]@);
        if let Some(rest) = strip_prefix(all[i].as_str(), "name:") {
            let name = trim(rest.as_str());
            if chars_of(name.as_str()).len() > 0 {
                return Some(name);
            }
        }
        i += 1;
    }
    None
}

/// A name without white space around it, in which hyphens stand for slashes, and
/// from which double dots are taken out.
pub open spec fn clean_name(name: Seq<char>) -> Seq<char> {
    replaced(
        trim_end(trim_start(name)).map_values(
            |c: char|
                if c == '/' || c == '\\' {
                    '-'
                } else {
                    c
                },
        ),
        ".."@,
        ""@,
    )
}

/// A name of a directory: the clean name up to its 255th byte, where a character
/// begins behind it.
pub open spec fn directory_name(name: Seq<char>) -> Option<Seq<char>> {
    let clean = clean_name(name);
    if utf8_len(clean) > 255 {
        up_to_byte(clean, 255)
    } else {
        Some(clean)
    }
}

fn without_slashes(s: &str) -> (r: String)
    ensures
        r@ == s@.map_values(
            |c: char|
                if c == '/' || c == '\\' {
                    '-'
                } else {
                    c
                },
        ),
{
    let x = chars_of(s);
    let ghost want = s@.map_values(
        |c: char|
            if c == '/' || c == '\\' {
                '-'
            } else {
                c
            },
    );
    let mut out = String::new();
    let mut i: usize = 0;
    assert(out@ =~= want.take(0));
    while i < x.len()
        invariant
            i <= x@.len(),
            x@ == s@,
            want == s@.map_values(
                |c: char|
                    if c == '/' || c == '\\' {
                        '-'
                    } else {
                        c
                    },
            ),
            out@ == want.take(i as int),
        decreases x.len() - i,
    {
        let c = x[i];
        if c == '/' || c == '\\' {
            out.push('-');
        } else {
            out.push(c);
        }
        assert(want.take(i + 1) =~= want.take(i as int).push(want[i as int]));
        i += 1;
    }
    assert(want.take(want.len() as int) =~= want);
    out
}

/// Sanitizes a skill name for use as a directory name, and gives nothing where the
/// name would have to be cut within a character.
pub fn try_sanitize_name(name: &str) -> (r: Option<String>)
    ensures
        opt_text(r) == directory_name(name@),
{
    proof {
        reveal_strlit("..");
    }
    let plain = without_slashes(trim(name).as_str());
    let clean = replace(plain.as_str(), "..", "");
    if utf8_length(clean.as_str()) > 255 {
        text_up_to_byte(clean.as_str(), 255)
    } else {
        Some(clean)
    }
}

/// Sanitizes a skill name for use as a directory name.
pub fn sanitize_name(name: &str) -> (r: String)
    requires
        directory_name(name@) is Some,
    ensures
        Some(r@) == directory_name(name@),
{
    match try_sanitize_name(name) {
        Some(text) => text,
        None => String::new(),
    }
}

/// A directory below the one in which skills are looked for.
#[derive(Debug)]
pub struct FoundDirectory {
    /// Its name, where it is a text.
    pub name: Option<String>,
    /// Its path.
    pub path: String,
    /// What its `SKILL.md` holds, where it has one that can be read.
    pub skill: Option<String>,
    /// The directories in it.
    pub children: Vec<FoundDirectory>,
}

/// A discovered skill directory.
#[derive(Debug, Clone)]
pub struct DiscoveredSkill {
    /// Sanitized skill name.
    pub name: String,
    /// Path to the skill directory.
    pub dir: String,
    /// Whether this is a root-level SKILL.md (not in a subdirectory).
    pub root: bool,
}

/// What a discovered skill means.
pub struct Discovered {
    /// Name.
    pub name: Seq<char>,
    /// Directory.
    pub dir: Seq<char>,
    /// Whether the skill is at the root.
    pub root: bool,
}

impl View for DiscoveredSkill {
    type V = Discovered;

    open spec fn view(&self) -> Discovered {
        Discovered { name: self.name@, dir: self.dir@, root: self.root }
    }
}

/// What discovered skills mean.
pub open spec fn discovered(v: Seq<DiscoveredSkill>) -> Seq<Discovered> {
    v.map_values(|s: DiscoveredSkill| s@)
}

/// The name that a skill's file gives, or another one.
pub open spec fn name_or(content: Seq<char>, other: Option<Seq<char>>) -> Seq<char> {
    match name_in(lines(content), 0) {
        Some(name) => name,
        None => match other {
            Some(name) => name,
            None => "skill"@,
        },
    }
}

fn name_of_skill(content: &str, other: &Option<String>) -> (r: String)
    ensures
        r@ == name_or(content@, opt_text(*other)),
{
    match extract_skill_name(content) {
        Some(name) => name,
        None => match other {
            Some(name) => name.clone(),
            None => "skill".to_string(),
        },
    }
}

/// The skill of a directory itself.
pub open spec fn own_skill(dir: FoundDirectory) -> Option<Discovered> {
    match dir.skill {
        Some(content) => Some(
            Discovered {
                name: directory_name(name_or(content@, opt_text(dir.name)))->Some_0,
                dir: dir.path@,
                root: false,
            },
        ),
        None => None,
    }
}

/// Whether the name of a directory's skill can be that of a directory.
pub open spec fn own_name_fits(dir: FoundDirectory) -> bool {
    dir.skill matches Some(content) ==> directory_name(
        name_or(content@, opt_text(dir.name)),
    ) is Some
}

/// Whether the names of the skills of a directory and of all those below it can be
/// those of directories.
pub open spec fn names_fit(dir: FoundDirectory) -> bool
    decreases dir, 0nat,
{
    own_name_fits(dir) && all_names_fit(dir.children@)
}

/// Whether [`names_fit`] holds of all directories.
pub open spec fn all_names_fit(dirs: Seq<FoundDirectory>) -> bool
    decreases dirs, dirs.len(),
{
    dirs.len() > 0 ==> all_names_fit(dirs.drop_last()) && names_fit(dirs.last())
}

/// The skills of a directory and of those below it: its own before theirs.
pub open spec fn skills_in(dir: FoundDirectory) -> Seq<Discovered>
    decreases dir, 0nat,
{
    match own_skill(dir) {
        Some(skill) => seq![skill] + skills_below(dir.children@),
        None => skills_below(dir.children@),
    }
}

/// The skills of directories and of those below them.
pub open spec fn skills_below(dirs: Seq<FoundDirectory>) -> Seq<Discovered>
    decreases dirs, dirs.len(),
{
    if dirs.len() == 0 {
        Seq::empty()
    } else {
        skills_below(dirs.drop_last()) + skills_in(dirs.last())
    }
}

/// The skills of directories, and the one at the root where no other has its name.
pub open spec fn all_skills(
    root: Seq<char>,
    root_skill: Option<Seq<char>>,
    dirs: Seq<FoundDirectory>,
) -> Seq<Discovered> {
    let below = skills_below(dirs);
    match root_skill {
        None => below,
        Some(content) => {
            let name = directory_name(name_or(content, None))->Some_0;
            if exists|i: int| 0 <= i < below.len() && (#[trigger] below[i]).name == name {
                below
            } else {
                below.push(Discovered { name, dir: root, root: true })
            }
        },
    }
}

/// Whether the names of the skills of directories can be those of directories.
pub fn do_names_fit(dirs: &Vec<FoundDirectory>) -> (r: bool)
    ensures
        r == all_names_fit(dirs@),
    decreases *dirs,
{
    let mut i: usize = 0;
    while i < dirs.len()
        invariant
            i <= dirs@.len(),
            all_names_fit(dirs@.take(i as int)),
        decreases dirs.len() - i,
    {
        proof {
            reveal_with_fuel(all_names_fit, 2);
            reveal_with_fuel(names_fit, 2);
        }
        assert(dirs@.take(i + 1).drop_last() =~= dirs@.take(i as int));
        assert(dirs@.take(i + 1).last() == dirs@[i as int]);
        let own = match &dirs[i].skill {
            Some(content) => {
                let name = name_of_skill(content.as_str(), &dirs[i].name);
                try_sanitize_name(name.as_str()).is_some()
            },
            None => true,
        };
        assert(decreases_to!(*dirs => dirs@[i as int].children));
        let below = do_names_fit(&dirs[i].children);
        if !own || !below {
            proof {
                lemma_names_misfit(dirs@, i as int);
            }
            return false;
        }
        i += 1;
    }
    assert(dirs@.take(dirs@.len() as int) =~= dirs@);
    true
}

/// One directory whose names do not fit is enough.
proof fn lemma_names_misfit(dirs: Seq<FoundDirectory>, i: int)
    requires
        0 <= i < dirs.len(),
        !names_fit(dirs[i]),
    ensures
        !all_names_fit(dirs),
    decreases dirs.len(),
{
    reveal_with_fuel(all_names_fit, 2);
    if i < dirs.len() - 1 {
        assert(dirs.drop_last()[i] == dirs[i]);
        lemma_names_misfit(dirs.drop_last(), i);
    }
}

/// The names of each of the directories fit.
proof fn lemma_names_fit(dirs: Seq<FoundDirectory>, i: int)
    requires
        all_names_fit(dirs),
        0 <= i < dirs.len(),
    ensures
        names_fit(dirs[i]),
    decreases dirs.len(),
{
    reveal_with_fuel(all_names_fit, 2);
    if i < dirs.len() - 1 {
        assert(dirs.drop_last()[i] == dirs[i]);
        lemma_names_fit(dirs.drop_last(), i);
    }
}

/// Adds the skills of directories and of those below them.
pub fn visit_skills(dirs: &Vec<FoundDirectory>, results: &mut Vec<DiscoveredSkill>)
    requires
        all_names_fit(dirs@),
    ensures
        discovered(final(results)@) == discovered(old(results)@) + skills_below(dirs@),
    decreases *dirs,
{
    let ghost start = discovered(results@);
    let mut i: usize = 0;
    assert(start + skills_below(dirs@.take(0)) =~= start);
    while i < dirs.len()
        invariant
            i <= dirs@.len(),
            all_names_fit(dirs@),
            discovered(results@) == start + skills_below(dirs@.take(i as int)),
        decreases dirs.len() - i,
    {
        proof {
            reveal_with_fuel(skills_below, 2);
            reveal_with_fuel(skills_in, 2);
            reveal_with_fuel(names_fit, 2);
            lemma_names_fit(dirs@, i as int);
        }
        assert(dirs@.take(i + 1).drop_last() =~= dirs@.take(i as int));
        assert(dirs@.take(i + 1).last() == dirs@[i as int]);
        let ghost own = own_skill(dirs@[i as int]);
        let ghost before = discovered(results@);
        if let Some(content) = &dirs[i].skill {
            let name = name_of_skill(content.as_str(), &dirs[i].name);
            let skill = DiscoveredSkill {
                name: sanitize_name(name.as_str()),
                dir: dirs[i].path.clone(),
                root: false,
            };
            let ghost model = skill@;
            results.push(skill);
            assert(discovered(results@) =~= before.push(model));
        }
        assert(decreases_to!(*dirs => dirs@[i as int].children));
        visit_skills(&dirs[i].children, results);
        assert(discovered(results@) =~= start + skills_below(dirs@.take(i + 1)));
        i += 1;
    }
    assert(dirs@.take(dirs@.len() as int) =~= dirs@);
}

/// Discovers the skills of directories (those containing a `SKILL.md`), and the one
/// at the root where no other has its name.
pub fn discover_skills(
    root_dir: &str,
    root_skill: &Option<String>,
    dirs: &Vec<FoundDirectory>,
) -> (r: Vec<DiscoveredSkill>)
    requires
        all_names_fit(dirs@),
        opt_text(*root_skill) matches Some(content) ==> directory_name(
            name_or(content, None),
        ) is Some,
    ensures
        discovered(r@) == all_skills(root_dir@, opt_text(*root_skill), dirs@),
{
    let mut results: Vec<DiscoveredSkill> = Vec::new();
    assert(discovered(results@) =~= Seq::empty());
    visit_skills(dirs, &mut results);
    let ghost below = skills_below(dirs@);
    assert(discovered(results@) =~= below);
    if let Some(content) = root_skill {
        let name = sanitize_name(name_of_skill(content.as_str(), &None).as_str());
        let mut i: usize = 0;
        while i < results.len()
            invariant
                i <= results@.len(),
                discovered(results@) == below,
                below == skills_below(dirs@),
                *root_skill == Some(*content),
                Some(name@) == directory_name(name_or(content@, None)),
                forall|k: int| 0 <= k < i ==> (#[trigger] below[k]).name != name@,
            decreases results.len() - i,
        {
            assert(below[i as int] == results@[i as int]@);
            if same(results[i].name.as_str(), name.as_str()) {
                return results;
            }
            i += 1;
        }
        let skill = DiscoveredSkill { name, dir: root_dir.to_string(), root: true };
        let ghost model = skill@;
        results.push(skill);
        assert(discovered(results@) =~= below.push(model));
    }
    results
}

// ---------------------------------------------------------------------------
// Installing and removing
// ---------------------------------------------------------------------------

/// Whether skills are meant for all projects.
pub open spec fn is_global(global: Option<bool>) -> bool {
    global != Some(false)
}

/// The working directory of an installation.
pub open spec fn working_directory(cwd: Option<Seq<char>>, current: Seq<char>) -> Seq<char> {
    match cwd {
        Some(path) => path,
        None => current,
    }
}

/// The directory that holds all skills.
pub open spec fn canonical_base(global: bool, home: Seq<char>, cwd: Seq<char>) -> Seq<char> {
    joined(
        joined(
            if global {
                home
            } else {
                cwd
            },
            ".agents"@,
        ),
        "skills"@,
    )
}

/// The directory of an agent's skill.
pub open spec fn agent_directory(
    agent: AgentModel,
    skill: Seq<char>,
    global: bool,
    cwd: Seq<char>,
) -> Seq<char> {
    joined(
        if global {
            agent.global_skills_dir
        } else {
            joined(cwd, agent.project_skills_dir)
        },
        skill,
    )
}

/// A place at which a skill is installed for an agent.
#[derive(Debug, Clone)]
pub struct PlannedLink {
    /// Agent display name.
    pub agent: String,
    /// The directory.
    pub dir: String,
}

/// How a skill is installed.
#[derive(Debug, Clone)]
pub struct PlannedSkill {
    /// The directory that the skill comes from.
    pub source: String,
    /// Whether only the `SKILL.md` of that directory is copied.
    pub root: bool,
    /// The directory that the skill is copied to.
    pub canonical: String,
    /// The places that lead there.
    pub links: Vec<PlannedLink>,
}

/// What a planned link means: the agent and the directory.
pub open spec fn links_view(v: Seq<PlannedLink>) -> Seq<(Seq<char>, Seq<char>)> {
    v.map_values(|l: PlannedLink| (l.agent@, l.dir@))
}

/// What a planned skill means.
pub struct SkillPlan {
    /// Source directory.
    pub source: Seq<char>,
    /// Whether only one file is copied.
    pub root: bool,
    /// Canonical directory.
    pub canonical: Seq<char>,
    /// Links.
    pub links: Seq<(Seq<char>, Seq<char>)>,
}

impl View for PlannedSkill {
    type V = SkillPlan;

    open spec fn view(&self) -> SkillPlan {
        SkillPlan {
            source: self.source@,
            root: self.root,
            canonical: self.canonical@,
            links: links_view(self.links@),
        }
    }
}

/// What planned skills mean.
pub open spec fn plans(v: Seq<PlannedSkill>) -> Seq<SkillPlan> {
    v.map_values(|p: PlannedSkill| p@)
}

/// The links of a skill: one for each agent with a path of its own, unless that path
/// is the canonical one.
pub open spec fn skill_links(
    agents: Seq<AgentModel>,
    skill: Seq<char>,
    canonical: Seq<char>,
    global: bool,
    cwd: Seq<char>,
) -> Seq<(Seq<char>, Seq<char>)>
    decreases agents.len(),
{
    if agents.len() == 0 {
        Seq::empty()
    } else {
        let before = skill_links(agents.drop_last(), skill, canonical, global, cwd);
        let dir = agent_directory(agents.last(), skill, global, cwd);
        if agents.last().universal || one_path(dir, canonical) {
            before
        } else {
            before.push((agents.last().name, dir))
        }
    }
}

/// How a skill is installed.
pub open spec fn skill_plan(
    skill: Discovered,
    agents: Seq<AgentModel>,
    global: bool,
    home: Seq<char>,
    cwd: Seq<char>,
) -> SkillPlan {
    let canonical = joined(canonical_base(global, home, cwd), skill.name);
    SkillPlan {
        source: skill.dir,
        root: skill.root,
        canonical,
        links: skill_links(agents, skill.name, canonical, global, cwd),
    }
}

fn base_directory(global: bool, home: &str, cwd: &str) -> (r: String)
    ensures
        r@ == canonical_base(global, home@, cwd@),
{
    let base = if global {
        join_path(home, ".agents")
    } else {
        join_path(cwd, ".agents")
    };
    join_path(base.as_str(), "skills")
}

fn directory_of_agent(agent: &Agent, skill: &str, global: bool, cwd: &str) -> (r: String)
    ensures
        r@ == agent_directory(agent@, skill@, global, cwd@),
{
    if global {
        join_path(agent.global_skills_dir.as_str(), skill)
    } else {
        join_path(join_path(cwd, agent.project_skills_dir.as_str()).as_str(), skill)
    }
}

fn plan_links(agents: &Vec<Agent>, skill: &str, canonical: &str, global: bool, cwd: &str) -> (r: Vec<
    PlannedLink,
>)
    ensures
        links_view(r@) == skill_links(agents_view(agents@), skill@, canonical@, global, cwd@),
{
    let ghost all = agents_view(agents@);
    let mut out: Vec<PlannedLink> = Vec::new();
    let mut i: usize = 0;
    assert(links_view(out@) =~= skill_links(all.take(0), skill@, canonical@, global, cwd@));
    while i < agents.len()
        invariant
            i <= agents@.len(),
            all == agents_view(agents@),
            links_view(out@) == skill_links(
                all.take(i as int),
                skill@,
                canonical@,
                global,
                cwd@,
            ),
        decreases agents.len() - i,
    {
        assert(all.take(i + 1).drop_last() =~= all.take(i as int));
        assert(all.take(i + 1).last() == agents@[i as int]@);
        let ghost was = links_view(out@);
        let dir = directory_of_agent(&agents[i], skill, global, cwd);
        if !agents[i].universal && !is_one_path(dir.as_str(), canonical) {
            let ghost place = dir@;
            out.push(PlannedLink { agent: agents[i].name.clone(), dir });
            assert(links_view(out@) =~= was.push((agents@[i as int]@.name, place)));
        }
        i += 1;
    }
    assert(all.take(all.len() as int) =~= all);
    out
}

/// The plans of skills, in their order.
pub open spec fn skill_plans(
    skills: Seq<Discovered>,
    agents: Seq<AgentModel>,
    global: bool,
    home: Seq<char>,
    cwd: Seq<char>,
) -> Seq<SkillPlan> {
    skills.map_values(|s: Discovered| skill_plan(s, agents, global, home, cwd))
}

/// Plans an installation. `current` is the current directory, and `detected` are the
/// agents that were detected.
pub fn plan_install(
    skills: &Vec<DiscoveredSkill>,
    options: &InstallOptions,
    home: &str,
    current: &str,
    detected: &Vec<Agent>,
) -> (r: Vec<PlannedSkill>)
    ensures
        plans(r@) == skill_plans(
            discovered(skills@),
            match options.agents {
                Some(agents) => agents_view(agents@),
                None => agents_view(detected@),
            },
            is_global(options.global),
            home@,
            working_directory(opt_text(options.cwd), current@),
        ),
{
    let global = match options.global {
        Some(global) => global,
        None => true,
    };
    let cwd = match &options.cwd {
        Some(path) => path.clone(),
        None => current.to_string(),
    };
    let agents = match &options.agents {
        Some(agents) => agents,
        None => detected,
    };
    let base = base_directory(global, home, cwd.as_str());
    let ghost want = skill_plans(
        discovered(skills@),
        agents_view(agents@),
        global,
        home@,
        cwd@,
    );
    let mut out: Vec<PlannedSkill> = Vec::new();
    let mut i: usize = 0;
    assert(plans(out@) =~= want.take(0));
    while i < skills.len()
        invariant
            i <= skills@.len(),
            base@ == canonical_base(global, home@, cwd@),
            want == skill_plans(
                discovered(skills@),
                agents_view(agents@),
                global,
                home@,
                cwd@,
            ),
            plans(out@) == want.take(i as int),
        decreases skills.len() - i,
    {
        let ghost was = plans(out@);
        let canonical = join_path(base.as_str(), skills[i].name.as_str());
        let links = plan_links(
            agents,
            skills[i].name.as_str(),
            canonical.as_str(),
            global,
            cwd.as_str(),
        );
        let plan = PlannedSkill {
            source: skills[i].dir.clone(),
            root: skills[i].root,
            canonical,
            links,
        };
        let ghost model = plan@;
        assert(model == want[i as int]);
        out.push(plan);
        assert(plans(out@) =~= was.push(want[i as int]));
        assert(want.take(i + 1) =~= want.take(i as int).push(want[i as int]));
        i += 1;
    }
    assert(want.take(want.len() as int) =~= want);
    out
}

/// What making a link came to.
#[derive(Debug, Clone, Copy, PartialEq, Eq, Structural)]
pub enum LinkOutcome {
    /// The link was made.
    Linked,
    /// The link could not be made, and the skill was copied.
    Copied,
    /// The skill could not be copied either.
    Failed,
}

/// What an installation for an agent means.
pub struct Install {
    /// Agent display name.
    pub agent: Seq<char>,
    /// Installed path.
    pub path: Seq<char>,
    /// Whether it was symlinked or copied.
    pub mode: InstallMode,
}

/// What installations mean.
pub open spec fn installs(v: Seq<AgentInstall>) -> Seq<Install> {
    v.map_values(
        |a: AgentInstall| Install { agent: a.agent@, path: a.path@, mode: a.mode },
    )
}

/// The installations that links came to.
pub open spec fn link_installs(links: Seq<(Seq<char>, Seq<char>)>, outcomes: Seq<LinkOutcome>, n:
    nat) -> Seq<Install>
    decreases n,
{
    if n == 0 {
        Seq::empty()
    } else {
        let before = link_installs(links, outcomes, (n - 1) as nat);
        let (agent, path) = links[n - 1];
        match outcomes[n - 1] {
            LinkOutcome::Linked => before.push(
                Install { agent, path, mode: InstallMode::Symlink },
            ),
            LinkOutcome::Copied => before.push(Install { agent, path, mode: InstallMode::Copy }),
            LinkOutcome::Failed => before,
        }
    }
}

/// The installations of all skills.
pub open spec fn all_installs(plan: Seq<SkillPlan>, outcomes: Seq<Vec<LinkOutcome>>, n: nat) -> Seq<
    Install,
>
    decreases n,
{
    if n == 0 {
        Seq::empty()
    } else {
        all_installs(plan, outcomes, (n - 1) as nat) + link_installs(
            plan[n - 1].links,
            outcomes[n - 1]@,
            plan[n - 1].links.len(),
        )
    }
}

fn push_installs(out: &mut Vec<AgentInstall>, links: &Vec<PlannedLink>, outcomes: &Vec<LinkOutcome>)
    requires
        links@.len() == outcomes@.len(),
    ensures
        installs(final(out)@) == installs(old(out)@) + link_installs(
            links_view(links@),
            outcomes@,
            links@.len(),
        ),
{
    let ghost start = installs(out@);
    let ghost all = links_view(links@);
    let mut i: usize = 0;
    assert(installs(out@) =~= start + link_installs(all, outcomes@, 0));
    while i < links.len()
        invariant
            i <= links@.len(),
            links@.len() == outcomes@.len(),
            all == links_view(links@),
            installs(out@) == start + link_installs(all, outcomes@, i as nat),
        decreases links.len() - i,
    {
        let ghost was = installs(out@);
        assert(all[i as int] == (links@[i as int].agent@, links@[i as int].dir@));
        let mode = match outcomes[i] {
            LinkOutcome::Linked => Some(InstallMode::Symlink),
            LinkOutcome::Copied => Some(InstallMode::Copy),
            LinkOutcome::Failed => None,
        };
        if let Some(mode) = mode {
            out.push(
                AgentInstall { agent: links[i].agent.clone(), path: links[i].dir.clone(), mode },
            );
            assert(installs(out@) =~= was.push(
                Install { agent: all[i as int].0, path: all[i as int].1, mode },
            ));
        }
        assert(installs(out@) =~= start + link_installs(all, outcomes@, (i + 1) as nat));
        i += 1;
    }
}

/// Gathers the result of an installation from its plan and from what making the
/// links of each skill came to.
pub fn install_result(plan: &Vec<PlannedSkill>, outcomes: &Vec<Vec<LinkOutcome>>) -> (r:
    InstallResult)
    requires
        plan@.len() == outcomes@.len(),
        forall|i: int|
            0 <= i < plan@.len() ==> (#[trigger] plan@[i]).links@.len() == outcomes@[i]@.len(),
    ensures
        texts(r.paths@) == plans(plan@).map_values(|p: SkillPlan| p.canonical),
        installs(r.agents@) == all_installs(plans(plan@), outcomes@, plan@.len()),
{
    let ghost want = plans(plan@).map_values(|p: SkillPlan| p.canonical);
    let mut paths: Vec<String> = Vec::new();
    let mut agents: Vec<AgentInstall> = Vec::new();
    let mut i: usize = 0;
    assert(texts(paths@) =~= want.take(0));
    assert(installs(agents@) =~= all_installs(plans(plan@), outcomes@, 0));
    while i < plan.len()
        invariant
            i <= plan@.len(),
            plan@.len() == outcomes@.len(),
            forall|k: int|
                0 <= k < plan@.len() ==> (#[trigger] plan@[k]).links@.len()
                    == outcomes@[k]@.len(),
            want == plans(plan@).map_values(|p: SkillPlan| p.canonical),
            texts(paths@) == want.take(i as int),
            installs(agents@) == all_installs(plans(plan@), outcomes@, i as nat),
        decreases plan.len() - i,
    {
        let ghost was = texts(paths@);
        assert(plans(plan@)[i as int] == plan@[i as int]@);
        paths.push(plan[i].canonical.clone());
        assert(texts(paths@) =~= was.push(want[i as int]));
        assert(want.take(i + 1) =~= want.take(i as int).push(want[i as int]));
        push_installs(&mut agents, &plan[i].links, &outcomes[i]);
        i += 1;
    }
    assert(want.take(want.len() as int) =~= want);
    InstallResult { paths, agents }
}

/// The directories of a skill: the canonical one, and those of the agents with a
/// path of their own.
pub open spec fn removed_directories(
    skill: Seq<char>,
    agents: Seq<AgentModel>,
    global: bool,
    home: Seq<char>,
    cwd: Seq<char>,
) -> Seq<Seq<char>>
    decreases agents.len(),
{
    if agents.len() == 0 {
        seq![joined(canonical_base(global, home, cwd), skill)]
    } else {
        let before = removed_directories(skill, agents.drop_last(), global, home, cwd);
        if agents.last().universal {
            before
        } else {
            before.push(agent_directory(agents.last(), skill, global, cwd))
        }
    }
}

/// Plans the removal of a skill by name from the canonical location and all detected
/// agent directories.
pub fn plan_remove(
    skill_name: &str,
    options: &RemoveOptions,
    home: &str,
    current: &str,
    detected: &Vec<Agent>,
) -> (r: Vec<String>)
    ensures
        texts(r@) == removed_directories(
            skill_name@,
            agents_view(detected@),
            is_global(options.global),
            home@,
            working_directory(opt_text(options.cwd), current@),
        ),
{
    let global = match options.global {
        Some(global) => global,
        None => true,
    };
    let cwd = match &options.cwd {
        Some(path) => path.clone(),
        None => current.to_string(),
    };
    let ghost all = agents_view(detected@);
    let mut out: Vec<String> = Vec::new();
    let base = base_directory(global, home, cwd.as_str());
    out.push(join_path(base.as_str(), skill_name));
    let mut i: usize = 0;
    assert(texts(out@) =~= removed_directories(
        skill_name@,
        all.take(0),
        global,
        home@,
        cwd@,
    ));
    while i < detected.len()
        invariant
            i <= detected@.len(),
            all == agents_view(detected@),
            texts(out@) == removed_directories(
                skill_name@,
                all.take(i as int),
                global,
                home@,
                cwd@,
            ),
        decreases detected.len() - i,
    {
        assert(all.take(i + 1).drop_last() =~= all.take(i as int));
        assert(all.take(i + 1).last() == detected@[i as int]@);
        let ghost was = texts(out@);
        if !detected[i].universal {
            let dir = directory_of_agent(&detected[i], skill_name, global, cwd.as_str());
            let ghost place = dir@;
            out.push(dir);
            assert(texts(out@) =~= was.push(place));
        }
        i += 1;
    }
    assert(all.take(all.len() as int) =~= all);
    out
}

// ---------------------------------------------------------------------------
// Relative paths
// ---------------------------------------------------------------------------

/// The number of components that two paths begin with together, from one of them on.
pub open spec fn common_from(a: Seq<Seq<char>>, b: Seq<Seq<char>>, from: nat) -> nat
    decreases a.len() - from,
{
    if from < a.len() && from < b.len() && a[from as int] == b[from as int] {
        common_from(a, b, from + 1)
    } else {
        from
    }
}

/// So many steps upwards.
pub open spec fn steps_up(n: nat) -> Seq<Seq<char>> {
    Seq::new(n, |i: int| ".."@)
}

/// The components that lead from one path to another: upwards to where they part,
/// and down from there.
pub open spec fn way(target: Seq<Seq<char>>, base: Seq<Seq<char>>) -> Seq<Seq<char>> {
    let common = common_from(target, base, 0);
    steps_up((base.len() - common) as nat) + target.skip(common as int)
}

/// The path that components make, one behind the other.
pub open spec fn path_of(parts: Seq<Seq<char>>) -> Seq<char>
    decreases parts.len(),
{
    if parts.len() == 0 {
        Seq::empty()
    } else {
        joined(path_of(parts.drop_last()), parts.last())
    }
}

/// Two paths begin with the same components up to the number that is found.
proof fn lemma_common(a: Seq<Seq<char>>, b: Seq<Seq<char>>, from: nat)
    requires
        from <= a.len(),
        from <= b.len(),
    ensures
        from <= common_from(a, b, from) <= a.len(),
        common_from(a, b, from) <= b.len(),
        forall|i: int| from <= i < common_from(a, b, from) ==> a[i] == #[trigger] b[i],
    decreases a.len() - from,
{
    if from < a.len() && from < b.len() && a[from as int] == b[from as int] {
        lemma_common(a, b, from + 1);
    }
}

/// Computes a relative path from `base` to `target`.
pub fn diff_paths(target: &str, base: &str) -> (r: Option<String>)
    ensures
        opt_text(r) == Some(path_of(way(components(target@), components(base@)))),
{
    let a = path_components(target);
    let b = path_components(base);
    let ghost x = components(target@);
    let ghost y = components(base@);
    proof {
        lemma_common(x, y, 0);
    }
    let mut common: usize = 0;
    while common < a.len() && common < b.len() && same(a[common].as_str(), b[common].as_str())
        invariant
            common <= a@.len(),
            common <= b@.len(),
            x == texts(a@),
            y == texts(b@),
            common_from(x, y, common as nat) == common_from(x, y, 0),
        decreases a.len() - common,
    {
        assert(x[common as int] == a@[common as int]@ && y[common as int] == b@[common as int]@);
        common += 1;
    }
    proof {
        if common < a@.len() && common < b@.len() {
            assert(x[common as int] == a@[common as int]@);
            assert(y[common as int] == b@[common as int]@);
        }
    }
    let ghost all = way(x, y);
    let mut out = String::new();
    let mut i: usize = common;
    assert(common == common_from(x, y, 0));
    assert(out@ =~= path_of(all.take(0)));
    while i < b.len()
        invariant
            common <= i <= b@.len(),
            common == common_from(x, y, 0),
            y == texts(b@),
            all == way(x, y),
            out@ == path_of(all.take(i - common)),
        decreases b.len() - i,
    {
        let ghost now = all.take(i - common + 1);
        assert(now.drop_last() =~= all.take(i - common));
        assert(now.last() == ".."@);
        out = join_path(out.as_str(), "..");
        i += 1;
    }
    let mut k: usize = common;
    while k < a.len()
        invariant
            common <= k <= a@.len(),
            common <= b@.len(),
            common == common_from(x, y, 0),
            x == texts(a@),
            y == texts(b@),
            all == way(x, y),
            out@ == path_of(all.take(b@.len() - common + k - common)),
        decreases a.len() - k,
    {
        let ghost n = b@.len() - common + k - common;
        let ghost now = all.take(n + 1);
        assert(now.drop_last() =~= all.take(n));
        assert(now.last() == x[k as int]);
        assert(x[k as int] == a@[k as int]@);
        out = join_path(out.as_str(), a[k].as_str());
        k += 1;
    }
    assert(all.take(all.len() as int) =~= all);
    Some(out)
}

// ---------------------------------------------------------------------------
// Laws
// ---------------------------------------------------------------------------

/// Whether components all lead downwards.
pub open spec fn plain_steps(v: Seq<Seq<char>>) -> bool {
    forall|i: int| 0 <= i < v.len() ==> #[trigger] v[i] != "."@ && v[i] != ".."@
}

/// Steps that lead downwards are settled.
proof fn lemma_plain_settled(v: Seq<Seq<char>>)
    requires
        plain_steps(v),
    ensures
        settled(v) == v,
    decreases v.len(),
{
    if v.len() > 0 {
        let head = v.drop_last();
        assert forall|i: int| 0 <= i < head.len() implies #[trigger] head[i] != "."@ && head[i]
            != ".."@ by {
            assert(head[i] == v[i]);
        }
        lemma_plain_settled(head);
        assert(v.last() == v[v.len() - 1]);
        assert(head.push(v.last()) =~= v);
    }
}

/// Steps upwards undo as many steps downwards.
proof fn lemma_steps_up(v: Seq<Seq<char>>, n: nat)
    requires
        plain_steps(v),
        n <= v.len(),
    ensures
        settled(v + steps_up(n)) == v.take(v.len() - n),
    decreases n,
{
    reveal_strlit(".");
    reveal_strlit("..");
    if n == 0 {
        lemma_plain_settled(v);
        assert(v + steps_up(0) =~= v);
        assert(v.take(v.len() as int) =~= v);
    } else {
        let m = (n - 1) as nat;
        lemma_steps_up(v, m);
        let all = v + steps_up(n);
        assert(all.drop_last() =~= v + steps_up(m));
        assert(all.last() == ".."@);
        assert(v.take(v.len() - m).drop_last() =~= v.take(v.len() - n));
    }
}

/// Steps downwards stay behind whatever is settled.
proof fn lemma_steps_down(v: Seq<Seq<char>>, down: Seq<Seq<char>>)
    requires
        plain_steps(down),
    ensures
        settled(v + down) == settled(v) + down,
    decreases down.len(),
{
    if down.len() == 0 {
        assert(v + down =~= v);
        assert(settled(v) + down =~= settled(v));
    } else {
        let head = down.drop_last();
        assert forall|i: int| 0 <= i < head.len() implies #[trigger] head[i] != "."@ && head[i]
            != ".."@ by {
            assert(head[i] == down[i]);
        }
        lemma_steps_down(v, head);
        assert((v + down).drop_last() =~= v + head);
        assert((v + down).last() == down[down.len() - 1]);
        assert((settled(v) + head).push(down.last()) =~= settled(v) + down);
    }
}

/// The way from a base to a target, taken from the base, ends at the target.
pub proof fn law_way_leads_to_target(target: Seq<Seq<char>>, base: Seq<Seq<char>>)
    requires
        plain_steps(target),
        plain_steps(base),
    ensures
        settled(base + way(target, base)) == target,
{
    lemma_common(target, base, 0);
    let common = common_from(target, base, 0) as int;
    let up = steps_up((base.len() - common) as nat);
    let down = target.skip(common);
    assert forall|i: int| 0 <= i < down.len() implies #[trigger] down[i] != "."@ && down[i]
        != ".."@ by {
        assert(down[i] == target[i + common]);
    }
    lemma_steps_up(base, (base.len() - common) as nat);
    lemma_steps_down(base + up, down);
    assert(base + way(target, base) =~= (base + up) + down);
    assert(base.take(common) =~= target.take(common));
    assert(target.take(common) + down =~= target);
}

/// Two paths that begin with so many equal components have at least as many in common.
proof fn lemma_common_at_least(a: Seq<Seq<char>>, b: Seq<Seq<char>>, from: nat, n: nat)
    requires
        from <= n <= a.len(),
        n <= b.len(),
        forall|i: int| 0 <= i < n ==> a[i] == #[trigger] b[i],
    ensures
        common_from(a, b, from) >= n,
    decreases n - from,
{
    if from < n {
        assert(a[from as int] == b[from as int]);
        lemma_common_at_least(a, b, from + 1, n);
    } else {
        lemma_common(a, b, from);
    }
}

/// Going one step further makes the way one step longer at most.
proof fn lemma_way_grows(from: Seq<Seq<char>>, to: Seq<Seq<char>>, base: Seq<Seq<char>>)
    requires
        to == from || (to.len() == from.len() + 1 && to.drop_last() == from) || (from.len()
            == to.len() + 1 && from.drop_last() == to),
    ensures
        way(to, base).len() <= way(from, base).len() + 1,
{
    lemma_common(from, base, 0);
    lemma_common(to, base, 0);
    let common = common_from(from, base, 0);
    let kept = if common <= to.len() {
        common
    } else {
        to.len()
    };
    assert forall|i: int| 0 <= i < kept implies to[i] == #[trigger] base[i] by {
        assert(from[i] == base[i]);
        if to.len() == from.len() + 1 {
            assert(to.drop_last()[i] == to[i]);
        } else if from.len() == to.len() + 1 {
            assert(from.drop_last()[i] == from[i]);
        }
    }
    lemma_common_at_least(to, base, 0, kept);
}

/// No shorter way leads from a base to a target, whatever steps it is made of.
pub proof fn law_no_shorter_way(target: Seq<Seq<char>>, base: Seq<Seq<char>>, other: Seq<Seq<char>>)
    requires
        plain_steps(base),
        settled(base + other) == target,
    ensures
        way(target, base).len() <= other.len(),
    decreases other.len(),
{
    if other.len() == 0 {
        lemma_plain_settled(base);
        assert(base + other =~= base);
        lemma_common(target, base, 0);
        lemma_common_at_least(target, base, 0, base.len());
    } else {
        let before = settled(base + other.drop_last());
        law_no_shorter_way(before, base, other.drop_last());
        assert((base + other).drop_last() =~= base + other.drop_last());
        assert(before.push((base + other).last()).drop_last() =~= before);
        lemma_way_grows(before, target, base);
    }
}

/// The relative path from one absolute path to another leads there from the base, and no
/// other with fewer components does. From a path to itself it is empty.
pub proof fn law_relative_paths_are_shortest(
    target: Seq<char>,
    base: Seq<char>,
    other: Seq<Seq<char>>,
)
    requires
        from_root(target),
        from_root(base),
        plain_steps(steps(target)),
        plain_steps(steps(base)),
        settled(steps(base) + other) == steps(target),
    ensures
        settled(steps(base) + way(components(target), components(base))) == steps(target),
        way(components(target), components(base)).len() <= other.len(),
        path_of(way(components(base), components(base))) == Seq::<char>::empty(),
{
    let x = steps(target);
    let y = steps(base);
    lemma_way_below_root(x, y);
    law_way_leads_to_target(x, y);
    law_no_shorter_way(x, y, other);
    let all = components(base);
    lemma_common_at_least(all, all, 0, all.len());
    lemma_common(all, all, 0);
    assert(way(all, all) =~= Seq::empty());
}

proof fn lemma_common_below_root(x: Seq<Seq<char>>, y: Seq<Seq<char>>, from: nat)
    requires
        from <= x.len(),
        from <= y.len(),
    ensures
        common_from(seq!["/"@] + x, seq!["/"@] + y, from + 1) == common_from(x, y, from) + 1,
    decreases x.len() - from,
{
    let a = seq!["/"@] + x;
    let b = seq!["/"@] + y;
    if from < x.len() && from < y.len() {
        assert(a[from as int + 1] == x[from as int]);
        assert(b[from as int + 1] == y[from as int]);
        if x[from as int] == y[from as int] {
            lemma_common_below_root(x, y, from + 1);
        }
    }
}

/// The root, which absolute paths have in common, adds nothing to the way.
proof fn lemma_way_below_root(x: Seq<Seq<char>>, y: Seq<Seq<char>>)
    ensures
        way(seq!["/"@] + x, seq!["/"@] + y) == way(x, y),
{
    let a = seq!["/"@] + x;
    let b = seq!["/"@] + y;
    assert(a[0] == "/"@ && b[0] == "/"@);
    lemma_common_below_root(x, y, 0);
    lemma_common(x, y, 0);
    let common = common_from(x, y, 0) as int;
    assert(common_from(a, b, 0) == common_from(a, b, 1));
    assert(a.skip(common + 1) =~= x.skip(common));
    assert(way(a, b) =~= way(x, y));
}

/// A skill is linked for agents with a path of their own only, and never to itself.
pub proof fn law_links_leave_the_canonical_path(
    agents: Seq<AgentModel>,
    skill: Seq<char>,
    canonical: Seq<char>,
    global: bool,
    cwd: Seq<char>,
    i: int,
)
    requires
        0 <= i < skill_links(agents, skill, canonical, global, cwd).len(),
    ensures
        !one_path(skill_links(agents, skill, canonical, global, cwd)[i].1, canonical),
        exists|k: int|
            0 <= k < agents.len() && !(#[trigger] agents[k]).universal && agents[k].name
                == skill_links(agents, skill, canonical, global, cwd)[i].0,
    decreases agents.len(),
{
    if agents.len() > 0 {
        let before = skill_links(agents.drop_last(), skill, canonical, global, cwd);
        if i < before.len() {
            law_links_leave_the_canonical_path(
                agents.drop_last(),
                skill,
                canonical,
                global,
                cwd,
                i,
            );
            let k = choose|k: int|
                0 <= k < agents.drop_last().len() && !(
                #[trigger] agents.drop_last()[k]).universal && agents.drop_last()[k].name
                    == before[i].0;
            assert(agents[k] == agents.drop_last()[k]);
        } else {
            assert(agents[agents.len() - 1] == agents.last());
        }
    }
}

/// No agent with a path of its own has the canonical path in projects.
pub proof fn law_own_agents_have_own_paths(homes: Homes, i: int)
    requires
        0 <= i < known_agents(homes).len(),
        !known_agents(homes)[i].universal,
    ensures
        known_agents(homes)[i].project_skills_dir != ".agents/skills"@,
{
    reveal_strlit(".agents/skills");
    reveal_strlit("/skills");
    reveal_strlit(".");
    lemma_tool_slug();
    reveal_strlit("windsurf");
    reveal_strlit("continue");
    reveal_strlit("roo");
    reveal_strlit("kilocode");
    reveal_strlit("goose");
    reveal_strlit("augment");
    reveal_strlit("trae");
    reveal_strlit("junie");
    reveal_strlit("crush");
    reveal_strlit("kiro");
    reveal_strlit("qwen");
    reveal_strlit("openhands");
    assert(".agents/skills"@[2] == 'g');
    assert((hidden(tool_slug(CLAUDE_CONFIG_DIR@)) + "/skills"@)[2] == 'l');
    let own = own_agents(homes);
    assert(universal_agents(homes).len() == 8);
    assert(i >= 8) by {
        if i < 8 {
            assert(known_agents(homes)[i] == universal_agents(homes)[i]);
        }
    }
    assert(known_agents(homes)[i] == own[i - 8]);
    assert(own.len() == 13);
    assert(own[0].project_skills_dir == hidden(tool_slug(CLAUDE_CONFIG_DIR@)) + "/skills"@);
    assert(own[1].project_skills_dir.len() == 16);
    assert(own[2].project_skills_dir.len() == 16);
    assert(own[3].project_skills_dir.len() == 11);
    assert(own[4].project_skills_dir.len() == 16);
    assert(own[5].project_skills_dir.len() == 13);
    assert(own[6].project_skills_dir.len() == 15);
    assert(own[7].project_skills_dir.len() == 12);
    assert(own[8].project_skills_dir.len() == 13);
    assert(own[9].project_skills_dir.len() == 13);
    assert(own[10].project_skills_dir.len() == 12);
    assert(own[11].project_skills_dir.len() == 12);
    assert(own[12].project_skills_dir.len() == 17);
}

/// The agents that count as installed are those whose marker is there, in order.
pub proof fn law_found_agents_are_installed(
    a: Seq<AgentModel>,
    b: Seq<AgentModel>,
    one: AgentModel,
    present: Seq<Seq<char>>,
)
    ensures
        installed(a + b, present) == installed(a, present) + installed(b, present),
        present.contains(one.marker) ==> installed(seq![one], present) == seq![one],
        !present.contains(one.marker) ==> installed(seq![one], present).len() == 0,
    decreases b.len(),
{
    reveal_with_fuel(installed, 2);
    assert(seq![one].drop_last() =~= Seq::empty());
    assert(installed(seq![one].drop_last(), present) =~= Seq::empty());
    if b.len() == 0 {
        assert(a + b =~= a);
        assert(installed(a, present) + installed(b, present) =~= installed(a, present));
    } else {
        law_found_agents_are_installed(a, b.drop_last(), one, present);
        assert((a + b).drop_last() =~= a + b.drop_last());
        assert((a + b).last() == b.last());
        assert(installed(a + b, present) =~= installed(a, present) + installed(b, present));
    }
}

/// An agent of its own keeps its skills below the directory that marks it, and in a
/// project below a hidden directory; the others share one directory of a project.
pub proof fn law_agents_keep_skills_in_their_directory(homes: Homes, i: int)
    requires
        0 <= i < known_agents(homes).len(),
    ensures
        ({
            let a = known_agents(homes)[i];
            &&& a.universal <==> i < 8
            &&& a.universal ==> a.project_skills_dir == ".agents/skills"@
            &&& !a.universal ==> a.global_skills_dir == joined(a.marker, "skills"@)
            &&& !a.universal ==> "."@.is_prefix_of(a.project_skills_dir)
            &&& "/skills"@.is_suffix_of(a.project_skills_dir)
        }),
{
    let a = known_agents(homes)[i];
    reveal_strlit("/skills");
    reveal_strlit(".agents/skills");
    assert(".agents/skills"@.subrange(7, 14) =~= "/skills"@);
    lemma_own_shape();
    lemma_shared_shape();
    if i >= 8 {
        let own = own_agents(homes);
        assert(own_shape(own[0]) && own_shape(own[1]) && own_shape(own[2]) && own_shape(own[3]));
        assert(own_shape(own[4]) && own_shape(own[5]) && own_shape(own[6]) && own_shape(own[7]));
        assert(own_shape(own[8]) && own_shape(own[9]) && own_shape(own[10]));
        assert(own_shape(own[11]) && own_shape(own[12]));
        assert(a == own[i - 8]);
        assert(own_shape(own[i - 8]));
    } else {
        let shared = universal_agents(homes);
        assert(shared_shape(shared[0]) && shared_shape(shared[1]) && shared_shape(shared[2]));
        assert(shared_shape(shared[3]) && shared_shape(shared[4]) && shared_shape(shared[5]));
        assert(shared_shape(shared[6]) && shared_shape(shared[7]));
        assert(a == shared[i]);
        assert(shared_shape(shared[i]));
    }
}

/// How an agent of its own keeps its skills.
spec fn own_shape(a: AgentModel) -> bool {
    &&& !a.universal
    &&& a.global_skills_dir == joined(a.marker, "skills"@)
    &&& "."@.is_prefix_of(a.project_skills_dir)
    &&& "/skills"@.is_suffix_of(a.project_skills_dir)
}

/// How an agent with a shared directory keeps its skills.
spec fn shared_shape(a: AgentModel) -> bool {
    a.universal && a.project_skills_dir == ".agents/skills"@
}

proof fn lemma_own_shape()
    ensures
        forall|name: Seq<char>, dir: Seq<char>, slug: Seq<char>|
            own_shape(#[trigger] own_agent(name, dir, slug)),
{
    assert forall|name: Seq<char>, dir: Seq<char>, slug: Seq<char>| own_shape(
        #[trigger] own_agent(name, dir, slug),
    ) by {
        let p = own_agent(name, dir, slug).project_skills_dir;
        let n = "/skills"@.len();
        assert(p.subrange(p.len() - n, p.len() as int) =~= "/skills"@);
        assert(p.subrange(0, "."@.len() as int) =~= "."@);
    }
}

proof fn lemma_shared_shape()
    ensures
        forall|name: Seq<char>, dir: Seq<char>, marker: Seq<char>|
            shared_shape(#[trigger] universal_agent(name, dir, marker)),
{
}

/// The known agents, by name, with the directories that mark them.
pub proof fn law_agents_are_known_by_name(homes: Homes)
    ensures
        ({
            let all = known_agents(homes);
            let home = homes.home@;
            let config = homes.config@;
            &&& all.len() == 21
            &&& all[0].name == "Amp"@ && all[0].marker == joined(config, "amp"@)
            &&& all[1].name == "Cline"@ && all[1].marker == joined(home, ".cline"@)
            &&& all[2].name == "Codex"@ && all[2].marker == homes.codex@
            &&& all[3].name == "Cursor"@ && all[3].marker == joined(home, ".cursor"@)
            &&& all[4].name == "Gemini CLI"@ && all[4].marker == joined(home, ".gemini"@)
            &&& all[5].name == "GitHub Copilot"@ && all[5].marker == joined(home, ".copilot"@)
            &&& all[6].name == "Kimi CLI"@ && all[6].marker == joined(home, ".kimi"@)
            &&& all[7].name == "OpenCode"@ && all[7].marker == joined(config, "opencode"@)
            &&& all[8].marker == homes.claude@
            &&& all[9].name == "Windsurf"@ && all[9].project_skills_dir == "."@ + "windsurf"@
                + "/skills"@
            &&& all[10].name == "Continue"@ && all[10].marker == joined(home, ".continue"@)
            &&& all[11].name == "Roo"@ && all[11].marker == joined(home, ".roo"@)
            &&& all[12].name == "Kilo"@ && all[12].marker == joined(home, ".kilocode"@)
            &&& all[13].name == "Goose"@ && all[13].marker == joined(config, "goose"@)
            &&& all[14].name == "Augment"@ && all[14].marker == joined(home, ".augment"@)
            &&& all[15].name == "Trae"@ && all[15].marker == joined(home, ".trae"@)
            &&& all[16].name == "Junie"@ && all[16].marker == joined(home, ".junie"@)
            &&& all[17].name == "Crush"@ && all[17].marker == joined(config, "crush"@)
            &&& all[18].name == "Kiro CLI"@ && all[18].marker == joined(home, ".kiro"@)
            &&& all[19].name == "Qwen"@ + " Code"@ && all[19].marker == joined(home, ".qwen"@)
            &&& all[20].name == "OpenHands"@ && all[20].marker == joined(home, ".openhands"@)
        }),
{
}

/// The name of a skill is what stands behind the first line that begins with the word
/// for it and has anything behind it, without the white space around.
pub proof fn law_first_name_counts(all: Seq<Seq<char>>, from: nat, i: int)
    requires
        from <= i < all.len(),
        "name:"@.is_prefix_of(all[i]),
        trim_end(trim_start(all[i].skip("name:"@.len() as int))).len() > 0,
        forall|j: int|
            from <= j < i ==> !("name:"@.is_prefix_of(#[trigger] all[j]) && trim_end(
                trim_start(all[j].skip("name:"@.len() as int)),
            ).len() > 0),
    ensures
        name_in(all, from) == Some(trim_end(trim_start(all[i].skip("name:"@.len() as int)))),
    decreases i - from,
{
    if from < i {
        law_first_name_counts(all, from + 1, i);
    }
}

/// A skill without a name of its own has that of its directory, and one without either
/// has a name of last resort.
pub proof fn law_unnamed_skills_get_a_name(content: Seq<char>, other: Seq<char>)
    requires
        name_in(lines(content), 0) is None,
    ensures
        name_or(content, Some(other)) == other,
        name_or(content, None) == "skill"@,
{
}

/// A directory name holds no separator.
pub proof fn law_directory_names_hold_no_separator(name: Seq<char>, i: int)
    requires
        directory_name(name) is Some,
        0 <= i < directory_name(name)->0.len(),
    ensures
        directory_name(name)->0[i] != '/',
        directory_name(name)->0[i] != '\\',
{
    let flat = trim_end(trim_start(name)).map_values(
        |c: char|
            if c == '/' || c == '\\' {
                '-'
            } else {
                c
            },
    );
    reveal_strlit("");
    lemma_removed_holds_no_more(flat, ".."@);
    let clean = clean_name(name);
    lemma_at_byte_within(clean, 0, 255);
    assert(clean.contains(clean[i]));
    assert(flat.contains(clean[i]));
}

/// A short name without separators, dots or white space is its own directory name.
pub proof fn law_plain_names_are_kept(name: Seq<char>)
    requires
        utf8_len(name) <= 255,
        forall|i: int|
            0 <= i < name.len() ==> (#[trigger] name[i]) != '/' && name[i] != '\\' && name[i] != '.'
                && !crate::text::white_space(name[i]),
    ensures
        directory_name(name) == Some(name),
{
    assert(trim_start(name) == name);
    assert(trim_end(name) == name);
    let flat = name.map_values(
        |c: char|
            if c == '/' || c == '\\' {
                '-'
            } else {
                c
            },
    );
    assert(flat =~= name);
    reveal_strlit("..");
    crate::text::lemma_find_from(name, ".."@, 0);
    if let Some(i) = crate::text::find(name, ".."@) {
        assert(name.subrange(i as int, i as int + 2)[0] == ".."@[0]);
        assert(name[i as int] == '.');
    }
}

proof fn lemma_at_byte_within(s: Seq<char>, from: nat, left: nat)
    requires
        from <= s.len(),
    ensures
        at_byte(s, from, left) matches Some(k) ==> from <= k <= s.len(),
    decreases s.len() - from,
{
    if from < s.len() && left >= crate::text::utf8_width(s[from as int]) {
        lemma_at_byte_within(s, from + 1, (left - crate::text::utf8_width(s[from as int])) as nat);
    }
}

proof fn lemma_removed_holds_no_more(s: Seq<char>, p: Seq<char>)
    ensures
        forall|c: char| replaced(s, p, ""@).contains(c) ==> s.contains(c),
    decreases s.len(),
{
    reveal_strlit("");
    if let Some(i) = crate::text::find(s, p) {
        if p.len() > 0 && i + p.len() <= s.len() {
            let rest = s.skip((i + p.len()) as int);
            lemma_removed_holds_no_more(rest, p);
            assert forall|c: char| replaced(s, p, ""@).contains(c) implies s.contains(c) by {
                let out = replaced(s, p, ""@);
                let k = choose|k: int| 0 <= k < out.len() && out[k] == c;
                if k < i {
                    assert(s[k] == c);
                } else {
                    let tail = replaced(rest, p, ""@);
                    assert(tail[k - i] == c);
                    assert(rest.contains(c));
                    let m = choose|m: int| 0 <= m < rest.len() && rest[m] == c;
                    assert(s[m + i + p.len()] == c);
                }
            }
        }
    }
}

/// The skills of a directory are its own, where it has one, and behind it those of the
/// directories below it, in order.
pub proof fn law_skills_are_found_in_every_directory(
    a: Seq<FoundDirectory>,
    b: Seq<FoundDirectory>,
    one: FoundDirectory,
)
    ensures
        skills_below(a + b) == skills_below(a) + skills_below(b),
        one.skill is None ==> skills_below(seq![one]) == skills_below(one.children@),
        one.skill matches Some(content) ==> {
            let found = skills_below(seq![one]);
            &&& found.len() == skills_below(one.children@).len() + 1
            &&& found.skip(1) == skills_below(one.children@)
            &&& found[0].dir == one.path@
            &&& !found[0].root
            &&& Some(found[0].name) == directory_name(name_or(content@, opt_text(one.name)))
                || directory_name(name_or(content@, opt_text(one.name))) is None
        },
    decreases b.len(),
{
    assert(seq![one].drop_last() =~= Seq::empty());
    assert(skills_below(seq![one].drop_last()) =~= Seq::empty());
    assert(skills_below(seq![one]) =~= skills_in(one));
    assert(one.skill is Some ==> skills_below(seq![one]).skip(1) =~= skills_below(one.children@));
    if b.len() == 0 {
        assert(a + b =~= a);
        assert(skills_below(a) + skills_below(b) =~= skills_below(a));
    } else {
        law_skills_are_found_in_every_directory(a, b.drop_last(), one);
        assert((a + b).drop_last() =~= a + b.drop_last());
        assert((a + b).last() == b.last());
        assert(skills_below(a + b) =~= skills_below(a) + skills_below(b));
    }
}

/// The skill of the root itself stands last, unless another has its name.
pub proof fn law_root_skill_stands_last(
    root: Seq<char>,
    content: Seq<char>,
    dirs: Seq<FoundDirectory>,
)
    ensures
        all_skills(root, None, dirs) == skills_below(dirs),
        skills_below(dirs).is_prefix_of(all_skills(root, Some(content), dirs)),
        directory_name(name_or(content, None)) matches Some(name) ==> {
            let all = all_skills(root, Some(content), dirs);
            &&& exists|i: int| 0 <= i < all.len() && (#[trigger] all[i]).name == name
            &&& (forall|i: int|
                0 <= i < skills_below(dirs).len() ==> (#[trigger] skills_below(dirs)[i]).name != name)
                ==> all.len() == skills_below(dirs).len() + 1 && all.last().dir == root
                && all.last().root
        },
{
    let all = all_skills(root, Some(content), dirs);
    let below = skills_below(dirs);
    assert(all.subrange(0, below.len() as int) =~= below);
    if let Some(name) = directory_name(name_or(content, None)) {
        if !(exists|i: int| 0 <= i < below.len() && (#[trigger] below[i]).name == name) {
            assert(all[all.len() - 1].name == name);
        }
    }
}

/// Skills go to the home directory unless that is switched off, and to the project then.
pub proof fn law_skills_go_where_asked(
    agent: AgentModel,
    skill: Seq<char>,
    home: Seq<char>,
    cwd: Seq<char>,
)
    ensures
        is_global(None) && is_global(Some(true)) && !is_global(Some(false)),
        canonical_base(true, home, cwd) == joined(joined(home, ".agents"@), "skills"@),
        canonical_base(false, home, cwd) == joined(joined(cwd, ".agents"@), "skills"@),
        agent_directory(agent, skill, true, cwd) == joined(agent.global_skills_dir, skill),
        agent_directory(agent, skill, false, cwd) == joined(
            joined(cwd, agent.project_skills_dir),
            skill,
        ),
        working_directory(Some(cwd), home) == cwd,
        working_directory(None, home) == home,
{
}

/// Each agent of its own gets a link, named after it, in its directory, unless that is
/// where the skill already is.
pub proof fn law_agents_get_links(
    a: Seq<AgentModel>,
    b: Seq<AgentModel>,
    one: AgentModel,
    skill: Seq<char>,
    canonical: Seq<char>,
    global: bool,
    cwd: Seq<char>,
)
    ensures
        skill_links(a + b, skill, canonical, global, cwd) == skill_links(a, skill, canonical, global, cwd) + skill_links(b, skill, canonical, global, cwd),
        one.universal || one_path(agent_directory(one, skill, global, cwd), canonical) ==> skill_links(seq![one], skill, canonical, global, cwd).len() == 0,
        !one.universal && !one_path(agent_directory(one, skill, global, cwd), canonical) ==> skill_links(seq![one], skill, canonical, global, cwd)
            == seq![(one.name, agent_directory(one, skill, global, cwd))],
    decreases b.len(),
{
    reveal_with_fuel(skill_links, 2);
    assert(seq![one].drop_last() =~= Seq::empty());
    assert(skill_links(seq![one].drop_last(), skill, canonical, global, cwd) =~= Seq::empty());
    if b.len() == 0 {
        assert(a + b =~= a);
        assert(skill_links(a, skill, canonical, global, cwd) + skill_links(b, skill, canonical, global, cwd) =~= skill_links(a, skill, canonical, global, cwd));
    } else {
        law_agents_get_links(a, b.drop_last(), one, skill, canonical, global, cwd);
        assert((a + b).drop_last() =~= a + b.drop_last());
        assert((a + b).last() == b.last());
        assert(skill_links(a + b, skill, canonical, global, cwd) =~= skill_links(a, skill, canonical, global, cwd) + skill_links(b, skill, canonical, global, cwd));
    }
}

/// The plan of a skill copies it from where it was found to its place below the
/// canonical directory.
pub proof fn law_plans_copy_to_the_canonical_place(
    skills: Seq<Discovered>,
    agents: Seq<AgentModel>,
    global: bool,
    home: Seq<char>,
    cwd: Seq<char>,
    i: int,
)
    requires
        0 <= i < skills.len(),
    ensures
        ({
            let all = skill_plans(skills, agents, global, home, cwd);
            &&& all.len() == skills.len()
            &&& all[i].source == skills[i].dir
            &&& all[i].root == skills[i].root
            &&& all[i].canonical == joined(canonical_base(global, home, cwd), skills[i].name)
            &&& all[i].links == skill_links(
                agents,
                skills[i].name,
                all[i].canonical,
                global,
                cwd,
            )
        }),
{
}

/// What is removed with a skill is its canonical directory first, and then all that was
/// ever linked to it.
pub proof fn law_removal_undoes_every_link(
    skill: Seq<char>,
    agents: Seq<AgentModel>,
    global: bool,
    home: Seq<char>,
    cwd: Seq<char>,
)
    ensures
        ({
            let canonical = joined(canonical_base(global, home, cwd), skill);
            let gone = removed_directories(skill, agents, global, home, cwd);
            let links = skill_links(agents, skill, canonical, global, cwd);
            &&& gone.len() > 0 && gone[0] == canonical
            &&& forall|i: int| 0 <= i < links.len() ==> gone.contains((#[trigger] links[i]).1)
            &&& forall|k: int|
                0 <= k < agents.len() && !(#[trigger] agents[k]).universal ==> gone.contains(
                    agent_directory(agents[k], skill, global, cwd),
                )
            &&& forall|k: int|
                1 <= k < gone.len() ==> exists|j: int|
                    0 <= j < agents.len() && !(#[trigger] agents[j]).universal && #[trigger] gone[k]
                        == agent_directory(agents[j], skill, global, cwd)
        }),
    decreases agents.len(),
{
    let canonical = joined(canonical_base(global, home, cwd), skill);
    let gone = removed_directories(skill, agents, global, home, cwd);
    let links = skill_links(agents, skill, canonical, global, cwd);
    if agents.len() > 0 {
        let head = agents.drop_last();
        law_removal_undoes_every_link(skill, head, global, home, cwd);
        let before = removed_directories(skill, head, global, home, cwd);
        let older = skill_links(head, skill, canonical, global, cwd);
        assert forall|d: Seq<char>| before.contains(d) implies gone.contains(d) by {
            let k = choose|k: int| 0 <= k < before.len() && before[k] == d;
            assert(gone[k] == d);
        }
        if !agents.last().universal {
            assert(gone[gone.len() - 1] == agent_directory(agents.last(), skill, global, cwd));
        }
        assert forall|i: int| 0 <= i < links.len() implies gone.contains((#[trigger] links[i]).1) by {
            if i < older.len() {
                assert(links[i] == older[i]);
            }
        }
        assert forall|k: int|
            0 <= k < agents.len() && !(#[trigger] agents[k]).universal implies gone.contains(
            agent_directory(agents[k], skill, global, cwd),
        ) by {
            if k < agents.len() - 1 {
                assert(head[k] == agents[k]);
            }
        }
        assert forall|k: int| 1 <= k < gone.len() implies exists|j: int|
            0 <= j < agents.len() && !(#[trigger] agents[j]).universal && #[trigger] gone[k]
                == agent_directory(agents[j], skill, global, cwd) by {
            if k < before.len() {
                assert(gone[k] == before[k]);
                let j = choose|j: int|
                    0 <= j < head.len() && !(#[trigger] head[j]).universal && before[k]
                        == agent_directory(head[j], skill, global, cwd);
                assert(agents[j] == head[j]);
            } else {
                assert(agents[agents.len() - 1] == agents.last());
            }
        }
    }
}

/// Every link that was made is reported, with the way it was made; one that failed is
/// not.
pub proof fn law_made_links_are_reported(
    links: Seq<(Seq<char>, Seq<char>)>,
    outcomes: Seq<LinkOutcome>,
    n: nat,
)
    requires
        n < links.len(),
        n < outcomes.len(),
    ensures
        ({
            let before = link_installs(links, outcomes, n);
            let after = link_installs(links, outcomes, n + 1);
            &&& outcomes[n as int] is Failed ==> after == before
            &&& !(outcomes[n as int] is Failed) ==> {
                &&& after.len() == before.len() + 1
                &&& before.is_prefix_of(after)
                &&& after.last().agent == links[n as int].0
                &&& after.last().path == links[n as int].1
                &&& after.last().mode is Symlink <==> outcomes[n as int] is Linked
                &&& after.last().mode is Copy <==> outcomes[n as int] is Copied
            }
            &&& link_installs(links, outcomes, 0).len() == 0
        }),
{
    let before = link_installs(links, outcomes, n);
    let after = link_installs(links, outcomes, n + 1);
    if !(outcomes[n as int] is Failed) {
        assert(after.subrange(0, before.len() as int) =~= before);
    }
}

/// A directory that is set counts, unless it is empty.
pub proof fn law_set_directories_win(value: Seq<char>, default: Seq<char>)
    ensures
        value.len() > 0 ==> set_or(Some(value), default) == value,
        value.len() == 0 ==> set_or(Some(value), default) == default,
        set_or(None, default) == default,
{
}

/// The links of all skills are reported, those of one skill behind those of the skills
/// before it.
pub proof fn law_installs_of_skills_follow_each_other(
    plan: Seq<SkillPlan>,
    outcomes: Seq<Vec<LinkOutcome>>,
    n: nat,
)
    requires
        n < plan.len(),
        n < outcomes.len(),
    ensures
        all_installs(plan, outcomes, n + 1) == all_installs(plan, outcomes, n) + link_installs(
            plan[n as int].links,
            outcomes[n as int]@,
            plan[n as int].links.len(),
        ),
        all_installs(plan, outcomes, 0).len() == 0,
{
}

/// The white space around a value that is set does not count.
pub proof fn law_set_values_are_trimmed(value: Seq<char>)
    ensures
        trimmed(None) is None,
        trimmed(Some(value)) matches Some(text) && (text.len() > 0 ==> !crate::text::white_space(
            text.last(),
        )),
        value.len() > 0 && !crate::text::white_space(value[0]) && !crate::text::white_space(
            value.last(),
        ) ==> trimmed(Some(value)) == Some(value),
{
    lemma_trimmed_end(trim_start(value));
}

proof fn lemma_trimmed_end(s: Seq<char>)
    ensures
        trim_end(s).len() > 0 ==> !crate::text::white_space(trim_end(s).last()),
    decreases s.len(),
{
    if s.len() > 0 && crate::text::white_space(s.last()) {
        lemma_trimmed_end(s.drop_last());
    }
}

} // verus!
