//! What the command line shows of results.

use vstd::prelude::*;
use crate::agents::{AgentInstall, InstallMode};
use crate::cli::cta::{
    bytes, format_human_error, human_error, lemma_widest, spaces, spaces_text, widest,
};
use crate::cli::flags::BuiltinFlags;
use crate::cli::pages::{one_piece, push_piece, shown, Piece, Shown};
use crate::fetch::{fetch_output, format_fetch_output, FetchOutput};
use crate::output::Format;
use crate::text::{
    cat, cat3, decimal, decimal_text, ends_with, join, join_texts, opt_text, replace, replaced,
    texts,
};
use crate::value::{
    field, lemma_array_view, lemma_collected_found, lemma_collected_push, lemma_nothing_collected,
    lemma_object_view, natural, new_object, object, put, string_value, strings, strings_value,
    values, with_some, Json, Number, Value,
};

verus! {

/// A text with a line end behind it, unless it ends in one.
pub open spec fn as_line(s: Seq<char>) -> Seq<char> {
    if "\n"@.is_suffix_of(s) {
        s
    } else {
        s + "\n"@
    }
}

/// Gives what is written for a text: every output ends in a line end.
pub fn line_of(s: &str) -> (r: String)
    ensures
        r@ == as_line(s@),
{
    if ends_with(s, "\n") {
        s.to_string()
    } else {
        cat(s, "\n")
    }
}

/// What is shown where the command line itself is wrong.
pub open spec fn refusal(human: bool, code: Seq<char>, message: Seq<char>) -> Seq<char> {
    if human {
        human_error(code, message)
    } else {
        "{\"ok\":false,\"error\":{\"code\":\""@ + code + "\",\"message\":\""@ + replaced(
            message,
            "\""@,
            "\\\""@,
        ) + "\"}}"@
    }
}

/// Gives what is shown where the command line itself is wrong.
pub fn refusal_text(human: bool, code: &str, message: &str) -> (r: String)
    ensures
        r@ == refusal(human, code@, message@),
{
    if human {
        return format_human_error(code, message);
    }
    proof {
        reveal_strlit("\"");
    }
    let escaped = replace(message, "\"", "\\\"");
    let mut out = cat3("{\"ok\":false,\"error\":{\"code\":\"", code, "\",\"message\":\"");
    out.append(escaped.as_str());
    out.append("\"}}");
    out
}

/// Shows that the command line itself is wrong, and ends with a failure.
pub fn refuse(human: bool, code: &str, message: &str) -> (r: (Vec<Piece>, Option<i32>))
    ensures
        shown(r.0@) == Seq::empty().push(Shown::Text(refusal(human, code@, message@))),
        r.1 == Some(1i32),
{
    let piece = Piece::Text(refusal_text(human, code, message));
    let pieces = one_piece(piece);
    assert(shown(pieces@) =~= Seq::empty().push(piece@));
    (pieces, Some(1))
}

/// A format that was asked for, or [`Format::Toon`].
pub open spec fn asked_format(builtin: BuiltinFlags) -> Format {
    if builtin.format_explicit {
        builtin.format
    } else {
        Format::Toon
    }
}

fn format_asked(builtin: &BuiltinFlags) -> (r: Format)
    ensures
        r == asked_format(*builtin),
{
    if builtin.format_explicit {
        builtin.format
    } else {
        Format::Toon
    }
}

/// Ending behind a failure message.
pub open spec fn failure(code: Seq<char>, message: Seq<char>) -> Seq<Shown> {
    Seq::empty().push(Shown::Text(human_error(code, message)))
}

/// Shows the failure of a step whose failures are shown to humans, and ends with a
/// failure.
pub fn report_failure(code: &str, message: &str) -> (r: (Vec<Piece>, Option<i32>))
    ensures
        shown(r.0@) == failure(code@, message@),
        r.1 == Some(1i32),
{
    let pieces = one_piece(Piece::Text(format_human_error(code, message)));
    assert(shown(pieces@) =~= failure(code@, message@));
    (pieces, Some(1))
}

// ---------------------------------------------------------------------------
// Built-in commands
// ---------------------------------------------------------------------------

/// A skill and whether it is installed.
#[derive(Debug)]
pub struct SkillStatus {
    /// Name of the skill.
    pub name: String,
    /// Its description.
    pub description: Option<String>,
    /// Whether it is installed.
    pub installed: bool,
}

/// The names and descriptions of skills.
pub open spec fn skill_names(v: Seq<SkillStatus>) -> Seq<(Seq<char>, Option<Seq<char>>)> {
    v.map_values(|s: SkillStatus| (s.name@, opt_text(s.description)))
}

/// How many skills are installed.
pub open spec fn installed_count(v: Seq<SkillStatus>) -> nat
    decreases v.len(),
{
    if v.len() == 0 {
        0
    } else {
        installed_count(v.drop_last()) + if v.last().installed {
            1nat
        } else {
            0nat
        }
    }
}

/// The line of a skill, with its description behind the widest name.
pub open spec fn skill_line(s: SkillStatus, width: usize) -> Seq<char> {
    let icon = if s.installed {
        "\u{2713}"@
    } else {
        "\u{2717}"@
    };
    "  "@ + icon + " "@ + s.name@ + match s.description {
        Some(d) => spaces((width - bytes(s.name@)) as nat) + "  "@ + d@,
        None => Seq::empty(),
    }
}

/// The end of a word in the plural.
pub open spec fn plural(n: nat) -> Seq<char> {
    if n == 1 {
        ""@
    } else {
        "s"@
    }
}

/// What `skills list` shows.
pub open spec fn skills_listing(v: Seq<SkillStatus>) -> Seq<char> {
    if v.len() == 0 {
        "No skills found."@
    } else {
        let width = widest(skill_names(v));
        join(
            v.map_values(|s: SkillStatus| skill_line(s, width)).push(""@).push(
                decimal(v.len()) + " skill"@ + plural(v.len()) + " ("@ + decimal(
                    installed_count(v),
                ) + " installed)"@,
            ),
            "\n"@,
        )
    }
}

fn plural_end(n: usize) -> (r: &'static str)
    ensures
        r@ == plural(n as nat),
{
    if n == 1 {
        ""
    } else {
        "s"
    }
}

fn line_of_skill(s: &SkillStatus, width: usize) -> (r: String)
    requires
        bytes(s.name@) <= width,
    ensures
        r@ == skill_line(*s, width),
{
    let icon = if s.installed {
        "\u{2713}"
    } else {
        "\u{2717}"
    };
    let mut out = cat3("  ", icon, " ");
    out.append(s.name.as_str());
    match &s.description {
        Some(d) => {
            let mut tail = spaces_text(width - s.name.as_str().len());
            tail.append("  ");
            tail.append(d.as_str());
            out.append(tail.as_str());
        },
        None => {
            assert(out@ + Seq::<char>::empty() =~= out@);
        },
    }
    out
}

/// Lists skills with their installed status.
pub fn list_skills(skills: &Vec<SkillStatus>) -> (r: String)
    ensures
        r@ == skills_listing(skills@),
{
    if skills.len() == 0 {
        return "No skills found.".to_string();
    }
    let ghost names = skill_names(skills@);
    let mut width: usize = 0;
    let mut count: usize = 0;
    let mut i: usize = 0;
    while i < skills.len()
        invariant
            i <= skills@.len(),
            names == skill_names(skills@),
            width == widest(names.take(i as int)),
            count == installed_count(skills@.take(i as int)),
            count <= i,
        decreases skills.len() - i,
    {
        assert(names.take(i + 1).drop_last() =~= names.take(i as int));
        assert(skills@.take(i + 1).drop_last() =~= skills@.take(i as int));
        let n: usize = skills[i].name.as_str().len();
        if n > width {
            width = n;
        }
        if skills[i].installed {
            count += 1;
        }
        i += 1;
    }
    assert(names.take(names.len() as int) =~= names);
    assert(skills@.take(skills@.len() as int) =~= skills@);
    let ghost all = skills@.map_values(|s: SkillStatus| skill_line(s, width));
    let mut lines: Vec<String> = Vec::new();
    i = 0;
    while i < skills.len()
        invariant
            i <= skills@.len(),
            names == skill_names(skills@),
            width == widest(names),
            all == skills@.map_values(|s: SkillStatus| skill_line(s, width)),
            texts(lines@) == all.take(i as int),
        decreases skills.len() - i,
    {
        let ghost was = texts(lines@);
        proof {
            lemma_widest(names, i as int);
        }
        lines.push(line_of_skill(&skills[i], width));
        assert(texts(lines@) =~= was.push(all[i as int]));
        assert(all.take(i + 1) =~= all.take(i as int).push(all[i as int]));
        i += 1;
    }
    assert(all.take(all.len() as int) =~= all);
    let mut last = cat(decimal_text(skills.len() as u64).as_str(), " skill");
    last.append(plural_end(skills.len()));
    last.append(" (");
    last.append(decimal_text(count as u64).as_str());
    last.append(" installed)");
    let ghost tail = last@;
    lines.push("".to_string());
    lines.push(last);
    assert(texts(lines@) =~= all.push(""@).push(tail));
    join_texts(&lines, "\n")
}

/// What syncing skill files did.
#[derive(Debug)]
pub struct SyncResult {
    /// Names of the synced skills.
    pub skills: Vec<String>,
    /// Paths of the written files.
    pub paths: Vec<String>,
    /// What was installed for which agent.
    pub agents: Vec<AgentInstall>,
}

/// An installation as a value.
pub open spec fn install_json(a: AgentInstall) -> Json {
    object(
        Seq::empty().push(("agent"@, Json::String(a.agent@))).push(
            ("path"@, Json::String(a.path@)),
        ).push(
            (
                "mode"@,
                Json::String(
                    match a.mode {
                        InstallMode::Symlink => "symlink"@,
                        InstallMode::Copy => "copy"@,
                    },
                ),
            ),
        ),
    )
}

fn installs_value(agents: &Vec<AgentInstall>) -> (r: Value)
    ensures
        r@ == Json::Array(agents@.map_values(|a: AgentInstall| install_json(a))),
{
    broadcast use lemma_array_view;

    let ghost all = agents@.map_values(|a: AgentInstall| install_json(a));
    let mut out: Vec<Value> = Vec::new();
    let mut i: usize = 0;
    while i < agents.len()
        invariant
            i <= agents@.len(),
            all == agents@.map_values(|a: AgentInstall| install_json(a)),
            values(out@) == all.take(i as int),
        decreases agents.len() - i,
    {
        broadcast use {lemma_collected_push, lemma_object_view};

        let ghost was = values(out@);
        let mut fields = new_object();
        put(&mut fields, "agent", string_value(agents[i].agent.as_str()));
        put(&mut fields, "path", string_value(agents[i].path.as_str()));
        let mode = match agents[i].mode {
            InstallMode::Symlink => "symlink",
            InstallMode::Copy => "copy",
        };
        put(&mut fields, "mode", string_value(mode));
        let value = Value::Object(fields);
        assert(value@ == all[i as int]);
        out.push(value);
        assert(values(out@) =~= was.push(all[i as int]));
        assert(all.take(i + 1) =~= all.take(i as int).push(all[i as int]));
        i += 1;
    }
    assert(all.take(all.len() as int) =~= all);
    Value::Array(out)
}

/// The lines that name the synced skills.
pub open spec fn sync_lines(skills: Seq<Seq<char>>) -> Seq<Seq<char>> {
    seq!["Synced "@ + decimal(skills.len()) + " skill"@ + plural(skills.len())]
        + skills.map_values(|s: Seq<char>| "  "@ + s)
}

/// What `skills add` shows: the synced skills, and where details are wanted
/// the written files, and with the full output the agents too.
pub open spec fn sync_report(builtin: BuiltinFlags, result: SyncResult) -> Seq<Shown> {
    let head = Seq::empty().push(Shown::Text(join(sync_lines(texts(result.skills@)), "\n"@)));
    if builtin.verbose || builtin.format_explicit {
        head.push(
            Shown::Data(
                object(
                    with_some(
                        Seq::empty().push(("skills"@, strings(texts(result.paths@)))),
                        "agents"@,
                        if builtin.verbose {
                            Some(
                                Json::Array(
                                    result.agents@.map_values(|a: AgentInstall| install_json(a)),
                                ),
                            )
                        } else {
                            None
                        },
                    ),
                ),
                asked_format(builtin),
            ),
        )
    } else {
        head
    }
}

fn lines_of_sync(skills: &Vec<String>) -> (r: Vec<String>)
    ensures
        texts(r@) == sync_lines(texts(skills@)),
{
    let ghost all = sync_lines(texts(skills@));
    let mut lines: Vec<String> = Vec::new();
    let mut first = cat3("Synced ", decimal_text(skills.len() as u64).as_str(), " skill");
    first.append(plural_end(skills.len()));
    lines.push(first);
    assert(texts(lines@) =~= all.take(1));
    let mut i: usize = 0;
    while i < skills.len()
        invariant
            i <= skills@.len(),
            all == sync_lines(texts(skills@)),
            all.len() == skills@.len() + 1,
            texts(lines@) == all.take(i + 1),
        decreases skills.len() - i,
    {
        let ghost was = texts(lines@);
        lines.push(cat("  ", skills[i].as_str()));
        assert(texts(lines@) =~= was.push(all[i + 1]));
        assert(all.take(i + 2) =~= all.take(i + 1).push(all[i + 1]));
        i += 1;
    }
    assert(all.take(all.len() as int) =~= all);
    lines
}

/// Shows what syncing skill files did.
pub fn report_sync(builtin: &BuiltinFlags, result: &SyncResult) -> (r: Vec<Piece>)
    ensures
        shown(r@) == sync_report(*builtin, *result),
{
    broadcast use {lemma_collected_push, lemma_object_view};

    let mut pieces: Vec<Piece> = Vec::new();
    assert(shown(pieces@) =~= Seq::empty());
    let lines = lines_of_sync(&result.skills);
    push_piece(&mut pieces, Piece::Text(join_texts(&lines, "\n")));
    if builtin.verbose || builtin.format_explicit {
        let mut fields = new_object();
        put(&mut fields, "skills", strings_value(&result.paths));
        if builtin.verbose {
            put(&mut fields, "agents", installs_value(&result.agents));
        }
        push_piece(
            &mut pieces,
            Piece::Data { value: Value::Object(fields), format: format_asked(builtin) },
        );
    }
    pieces
}

/// What registering as MCP server did.
#[derive(Debug)]
pub struct RegisterResult {
    /// The command that agents run.
    pub command: String,
    /// The agents.
    pub agents: Vec<String>,
}

/// What `mcp add` shows: that the server is registered and with whom, and where
/// details are wanted these as a value.
pub open spec fn register_report(
    cli: Seq<char>,
    builtin: BuiltinFlags,
    result: RegisterResult,
) -> Seq<Shown> {
    let agents = texts(result.agents@);
    let text = "Registered "@ + cli + " as MCP server"@ + if agents.len() == 0 {
        Seq::empty()
    } else {
        "\nAgents: "@ + join(agents, ", "@)
    };
    let head = Seq::empty().push(Shown::Text(text));
    if builtin.verbose || builtin.format_explicit {
        head.push(
            Shown::Data(
                object(
                    Seq::empty().push(("name"@, Json::String(cli))).push(
                        ("command"@, Json::String(result.command@)),
                    ).push(("agents"@, strings(agents))),
                ),
                asked_format(builtin),
            ),
        )
    } else {
        head
    }
}

/// Shows what registering as MCP server did.
pub fn report_registration(cli_name: &str, builtin: &BuiltinFlags, result: &RegisterResult) -> (r:
    Vec<Piece>)
    ensures
        shown(r@) == register_report(cli_name@, *builtin, *result),
{
    broadcast use {lemma_collected_push, lemma_object_view};

    let mut pieces: Vec<Piece> = Vec::new();
    assert(shown(pieces@) =~= Seq::empty());
    let mut text = cat3("Registered ", cli_name, " as MCP server");
    if result.agents.len() > 0 {
        let list = cat("\nAgents: ", join_texts(&result.agents, ", ").as_str());
        text.append(list.as_str());
    } else {
        assert(text@ + Seq::<char>::empty() =~= text@);
    }
    push_piece(&mut pieces, Piece::Text(text));
    if builtin.verbose || builtin.format_explicit {
        let mut fields = new_object();
        put(&mut fields, "name", string_value(cli_name));
        put(&mut fields, "command", string_value(result.command.as_str()));
        put(&mut fields, "agents", strings_value(&result.agents));
        push_piece(
            &mut pieces,
            Piece::Data { value: Value::Object(fields), format: format_asked(builtin) },
        );
    }
    pieces
}

// ---------------------------------------------------------------------------
// Gateways
// ---------------------------------------------------------------------------

/// What is shown of the answer of a fetch gateway.
pub open spec fn gateway_report(
    output: FetchOutput,
    path: Seq<char>,
    verbose: bool,
    render: bool,
    format: Format,
) -> Seq<Shown> {
    if verbose {
        Seq::empty().push(
            Shown::Data(
                object(
                    Seq::empty().push(("ok"@, Json::Bool(output.ok))).push(
                        ("data"@, fetch_output(output)),
                    ).push(
                        (
                            "meta"@,
                            object(
                                Seq::empty().push(("command"@, Json::String(path))).push(
                                    ("status"@, natural(output.status as nat)),
                                ),
                            ),
                        ),
                    ),
                ),
                format,
            ),
        )
    } else if render {
        Seq::empty().push(Shown::Data(fetch_output(output), format))
    } else {
        Seq::empty()
    }
}

/// Shows the answer of a fetch gateway, and gives the exit code where the
/// request failed.
pub fn report_gateway(
    output: &FetchOutput,
    path: &str,
    verbose: bool,
    render: bool,
    format: Format,
) -> (r: (Vec<Piece>, Option<i32>))
    ensures
        shown(r.0@) == gateway_report(*output, path@, verbose, render, format),
        r.1 == (if output.ok {
            None
        } else {
            Some(1i32)
        }),
{
    broadcast use {lemma_collected_push, lemma_object_view};

    let data = format_fetch_output(output);
    let mut pieces: Vec<Piece> = Vec::new();
    assert(shown(pieces@) =~= Seq::empty());
    if verbose {
        let mut meta = new_object();
        put(&mut meta, "command", string_value(path));
        put(&mut meta, "status", Value::Number(Number::PosInt(output.status as u64)));
        let mut envelope = new_object();
        put(&mut envelope, "ok", Value::Bool(output.ok));
        put(&mut envelope, "data", data);
        put(&mut envelope, "meta", Value::Object(meta));
        push_piece(&mut pieces, Piece::Data { value: Value::Object(envelope), format });
    } else if render {
        push_piece(&mut pieces, Piece::Data { value: data, format });
    }
    let code: Option<i32> = if output.ok {
        None
    } else {
        Some(1)
    };
    (pieces, code)
}

/// Every output ends in one line end: one is added exactly where there is none.
pub proof fn law_lines_end(s: Seq<char>)
    ensures
        "\n"@.is_suffix_of(as_line(s)),
        "\n"@.is_suffix_of(s) ==> as_line(s) == s,
        !"\n"@.is_suffix_of(s) ==> as_line(s) == s + "\n"@,
{
    let t = s + "\n"@;
    assert(t.subrange(t.len() - "\n"@.len(), t.len() as int) =~= "\n"@);
}

/// What a gateway answers is shown where output is rendered, and in the full output with
/// the mark of success or failure, the path and the status around it.
pub proof fn law_gateways_are_reported(
    output: FetchOutput,
    path: Seq<char>,
    render: bool,
    format: Format,
)
    ensures
        render ==> gateway_report(output, path, false, render, format) == seq![
            Shown::Data(fetch_output(output), format),
        ],
        !render ==> gateway_report(output, path, false, render, format).len() == 0,
        ({
            let pieces = gateway_report(output, path, true, render, format);
            &&& pieces.len() == 1
            &&& pieces[0] matches Shown::Data(value, f)
            &&& f == format
            &&& field(value, "ok"@) == Some(Json::Bool(output.ok))
            &&& field(value, "data"@) == Some(fetch_output(output))
            &&& field(value, "meta"@) matches Some(meta)
            &&& field(meta, "command"@) == Some(Json::String(path))
            &&& field(meta, "status"@) == Some(Json::Number(Number::PosInt(output.status as u64)))
        }),
{
    broadcast use {lemma_collected_found, lemma_nothing_collected};

    lemma_report_keys();
    assert(seq![Shown::Data(fetch_output(output), format)] =~= Seq::empty().push(
        Shown::Data(fetch_output(output), format),
    ));
}

/// The keys of reports differ.
proof fn lemma_report_keys()
    ensures
        "ok"@ != "data"@,
        "ok"@ != "meta"@,
        "ok"@ != "command"@,
        "ok"@ != "status"@,
        "ok"@ != "skills"@,
        "ok"@ != "agents"@,
        "ok"@ != "name"@,
        "ok"@ != "agent"@,
        "ok"@ != "path"@,
        "ok"@ != "mode"@,
        "data"@ != "meta"@,
        "data"@ != "command"@,
        "data"@ != "status"@,
        "data"@ != "skills"@,
        "data"@ != "agents"@,
        "data"@ != "name"@,
        "data"@ != "agent"@,
        "data"@ != "path"@,
        "data"@ != "mode"@,
        "meta"@ != "command"@,
        "meta"@ != "status"@,
        "meta"@ != "skills"@,
        "meta"@ != "agents"@,
        "meta"@ != "name"@,
        "meta"@ != "agent"@,
        "meta"@ != "path"@,
        "meta"@ != "mode"@,
        "command"@ != "status"@,
        "command"@ != "skills"@,
        "command"@ != "agents"@,
        "command"@ != "name"@,
        "command"@ != "agent"@,
        "command"@ != "path"@,
        "command"@ != "mode"@,
        "status"@ != "skills"@,
        "status"@ != "agents"@,
        "status"@ != "name"@,
        "status"@ != "agent"@,
        "status"@ != "path"@,
        "status"@ != "mode"@,
        "skills"@ != "agents"@,
        "skills"@ != "name"@,
        "skills"@ != "agent"@,
        "skills"@ != "path"@,
        "skills"@ != "mode"@,
        "agents"@ != "name"@,
        "agents"@ != "agent"@,
        "agents"@ != "path"@,
        "agents"@ != "mode"@,
        "name"@ != "agent"@,
        "name"@ != "path"@,
        "name"@ != "mode"@,
        "agent"@ != "path"@,
        "agent"@ != "mode"@,
        "path"@ != "mode"@,
{
    reveal_strlit("ok");
    reveal_strlit("data");
    reveal_strlit("meta");
    reveal_strlit("command");
    reveal_strlit("status");
    reveal_strlit("skills");
    reveal_strlit("agents");
    reveal_strlit("name");
    reveal_strlit("agent");
    reveal_strlit("path");
    reveal_strlit("mode");
    assert("ok"@.len() == 2);
    assert("data"@.len() == 4);
    assert("meta"@.len() == 4);
    assert("command"@.len() == 7);
    assert("status"@.len() == 6);
    assert("skills"@.len() == 6);
    assert("agents"@.len() == 6);
    assert("name"@.len() == 4);
    assert("agent"@.len() == 5);
    assert("path"@.len() == 4);
    assert("mode"@.len() == 4);
    assert("agents"@[0] == 'a');
    assert("data"@[0] == 'd');
    assert("meta"@[0] == 'm');
    assert("meta"@[1] == 'e');
    assert("mode"@[0] == 'm');
    assert("mode"@[1] == 'o');
    assert("name"@[0] == 'n');
    assert("path"@[0] == 'p');
    assert("skills"@[0] == 's');
    assert("skills"@[1] == 'k');
    assert("status"@[0] == 's');
    assert("status"@[1] == 't');
}

/// A sync tells how many skills were synced and names each; where a format or the full
/// output is asked for, it gives the paths too, and in the full output the agents.
pub proof fn law_syncs_are_reported(builtin: BuiltinFlags, result: SyncResult, i: int)
    requires
        0 <= i < result.skills@.len(),
    ensures
        ({
            let pieces = sync_report(builtin, result);
            let lines = sync_lines(texts(result.skills@));
            &&& pieces[0] == Shown::Text(join(lines, "\n"@))
            &&& lines.len() == result.skills@.len() + 1
            &&& lines[i + 1] == "  "@ + result.skills@[i]@
            &&& lines[0] == "Synced "@ + decimal(result.skills@.len()) + " skill"@ + (
            if result.skills@.len() == 1 {
                ""@
            } else {
                "s"@
            })
            &&& !builtin.verbose && !builtin.format_explicit ==> pieces.len() == 1
            &&& builtin.verbose || builtin.format_explicit ==> {
                &&& pieces.len() == 2
                &&& pieces[1] matches Shown::Data(value, format)
                &&& format == (if builtin.format_explicit {
                    builtin.format
                } else {
                    Format::Toon
                })
                &&& field(value, "skills"@) == Some(strings(texts(result.paths@)))
                &&& field(value, "agents"@) is Some <==> builtin.verbose
            }
        }),
{
    broadcast use {lemma_collected_found, lemma_nothing_collected};

    lemma_report_keys();
}

/// A registration names the command line and the agents; where a format or the full
/// output is asked for, it gives the command too.
pub proof fn law_registrations_are_reported(
    cli: Seq<char>,
    builtin: BuiltinFlags,
    result: RegisterResult,
)
    ensures
        ({
            let pieces = register_report(cli, builtin, result);
            &&& pieces[0] matches Shown::Text(text)
            &&& ("Registered "@ + cli + " as MCP server"@).is_prefix_of(text)
            &&& result.agents@.len() > 0 ==> (", "@.len() >= 0 && join(
                texts(result.agents@),
                ", "@,
            ).is_suffix_of(text))
            &&& !builtin.verbose && !builtin.format_explicit ==> pieces.len() == 1
            &&& builtin.verbose || builtin.format_explicit ==> {
                &&& pieces.len() == 2
                &&& pieces[1] matches Shown::Data(value, _)
                &&& field(value, "name"@) == Some(Json::String(cli))
                &&& field(value, "command"@) == Some(Json::String(result.command@))
                &&& field(value, "agents"@) == Some(strings(texts(result.agents@)))
            }
        }),
{
    broadcast use {lemma_collected_found, lemma_nothing_collected};

    lemma_report_keys();
    let text = register_report(cli, builtin, result)[0]->Text_0;
    let lead = "Registered "@ + cli + " as MCP server"@;
    assert(text.subrange(0, lead.len() as int) =~= lead);
    if result.agents@.len() > 0 {
        let tail = join(texts(result.agents@), ", "@);
        assert(text.subrange(text.len() - tail.len(), text.len() as int) =~= tail);
    }
}

/// The agents of a sync as values.
pub proof fn law_installs_are_told(a: AgentInstall)
    ensures
        field(install_json(a), "agent"@) == Some(Json::String(a.agent@)),
        field(install_json(a), "path"@) == Some(Json::String(a.path@)),
        a.mode is Symlink ==> field(install_json(a), "mode"@) == Some(Json::String("symlink"@)),
        a.mode is Copy ==> field(install_json(a), "mode"@) == Some(Json::String("copy"@)),
{
    broadcast use {lemma_collected_found, lemma_nothing_collected};

    lemma_report_keys();
}

/// A refusal is an error for humans to read, and a value that holds the code and the
/// quoted message for agents.
pub proof fn law_refusals_say_why(code: Seq<char>, message: Seq<char>)
    ensures
        refusal(true, code, message) == human_error(code, message),
        ("{\"ok\":false,\"error\":{\"code\":\""@ + code).is_prefix_of(refusal(false, code, message)),
        (replaced(message, "\""@, "\\\""@) + "\"}}"@).is_suffix_of(refusal(false, code, message)),
{
    let out = refusal(false, code, message);
    let lead = "{\"ok\":false,\"error\":{\"code\":\""@ + code;
    assert(out.subrange(0, lead.len() as int) =~= lead);
    let tail = replaced(message, "\""@, "\\\""@) + "\"}}"@;
    assert(out.subrange(out.len() - tail.len(), out.len() as int) =~= tail);
}

/// A listing has a line for each skill that shows its name behind the mark of whether it
/// is installed, and counts the skills and those installed at its end.
pub proof fn law_skills_are_listed(v: Seq<SkillStatus>, s: SkillStatus, width: usize)
    ensures
        v.len() == 0 ==> skills_listing(v) == "No skills found."@,
        v.len() > 0 ==> (" ("@ + decimal(installed_count(v)) + " installed)"@).is_suffix_of(
            skills_listing(v),
        ),
        s.installed ==> ("  "@ + "\u{2713}"@ + " "@ + s.name@).is_prefix_of(skill_line(s, width)),
        !s.installed ==> ("  "@ + "\u{2717}"@ + " "@ + s.name@).is_prefix_of(skill_line(s, width)),
        s.description matches Some(d) ==> d@.is_suffix_of(skill_line(s, width)),
        installed_count(v.push(s)) == installed_count(v) + (if s.installed {
            1int
        } else {
            0
        }),
        installed_count(Seq::empty()) == 0,
{
    assert(v.push(s).drop_last() =~= v);
    let line = skill_line(s, width);
    let icon = if s.installed {
        "\u{2713}"@
    } else {
        "\u{2717}"@
    };
    let lead = "  "@ + icon + " "@ + s.name@;
    assert(line.subrange(0, lead.len() as int) =~= lead);
    if let Some(d) = s.description {
        assert(line.subrange(line.len() - d@.len(), line.len() as int) =~= d@);
    }
    if v.len() > 0 {
        let wide = widest(skill_names(v));
        let end = decimal(v.len()) + " skill"@ + plural(v.len()) + " ("@ + decimal(
            installed_count(v),
        ) + " installed)"@;
        let all = v.map_values(|s: SkillStatus| skill_line(s, wide)).push(""@);
        assert(all.push(end).drop_last() =~= all);
        let out = skills_listing(v);
        assert(out == join(all, "\n"@) + "\n"@ + end);
        let tail = " ("@ + decimal(installed_count(v)) + " installed)"@;
        assert(out.subrange(out.len() - tail.len(), out.len() as int) =~= tail);
    }
}

} // verus!
