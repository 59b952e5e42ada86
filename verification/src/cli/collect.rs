//! Lists and descriptions of the commands of a tree.

use vstd::prelude::*;
use crate::cli::tree::{description_of, CommandEntry};
use crate::cli::walk::{
    collect_groups, collect_leaves, found, groups, leaves, named_groups, LeafCommand,
};
use crate::command::{copy_examples, examples_of, CommandDef, Example};
use crate::help::{summaries, CommandSummary};
use crate::mcp::filter::{matches_tool_filter, selected, McpToolFilter};
use crate::schema::{copy_fields, fields, FieldMeta};
use crate::skill::{infos, CommandInfo, Info};
use crate::table::{insert_text, inserted, lookup, ordered, text_table};
use crate::text::{cat3, contains, copy_opt, join, join_texts, occurs, opt_text, texts};
use crate::value::{
    collected, copy_opt_value, entries, field, lemma_array_view, lemma_collected_found,
    lemma_collected_push, lemma_nothing_collected, lemma_object_view, natural, new_object, object,
    opt_string, opt_value, put, sort_entries, string_value, values, with_some, Json, Number, Value,
};

verus! {

// ---------------------------------------------------------------------------
// Help
// ---------------------------------------------------------------------------

/// The names and descriptions of the entries of one level.
pub open spec fn listed(commands: Seq<(String, CommandEntry)>) -> Seq<
    (Seq<char>, Option<Seq<char>>),
> {
    commands.map_values(|e: (String, CommandEntry)| (e.0@, description_of(e.1)))
}

/// Collects immediate child commands/groups for help output.
pub fn collect_help_commands(commands: &Vec<(String, CommandEntry)>) -> (r: Vec<CommandSummary>)
    ensures
        summaries(r@) == listed(commands@),
{
    let ghost all = listed(commands@);
    let mut out: Vec<CommandSummary> = Vec::new();
    let mut i: usize = 0;
    while i < commands.len()
        invariant
            i <= commands@.len(),
            all == listed(commands@),
            summaries(out@) == all.take(i as int),
        decreases commands.len() - i,
    {
        let ghost was = summaries(out@);
        out.push(
            CommandSummary {
                name: commands[i].0.clone(),
                description: commands[i].1.description(),
            },
        );
        assert(summaries(out@) =~= was.push(all[i as int]));
        assert(all.take(i + 1) =~= all.take(i as int).push(all[i as int]));
        i += 1;
    }
    assert(all.take(all.len() as int) =~= all);
    out
}

/// Whether one of the fields is required.
pub open spec fn any_required(v: Seq<FieldMeta>) -> bool {
    exists|i: int| 0 <= i < v.len() && (#[trigger] v[i]).required
}

/// Checks if any arg fields are required.
pub fn has_required_args(args_fields: &Vec<FieldMeta>) -> (r: bool)
    ensures
        r == any_required(args_fields@),
{
    let mut i: usize = 0;
    while i < args_fields.len()
        invariant
            i <= args_fields@.len(),
            forall|k: int| 0 <= k < i ==> !(#[trigger] args_fields@[k]).required,
        decreases args_fields.len() - i,
    {
        if args_fields[i].required {
            return true;
        }
        i += 1;
    }
    false
}

// ---------------------------------------------------------------------------
// Skills
// ---------------------------------------------------------------------------

/// The sentence that follows the hint of a destructive command.
pub open spec fn confirm() -> Seq<char> {
    "Confirm with the user before executing this destructive command."@
}

/// Whether a command is marked as destructive.
pub open spec fn destructive(command: CommandDef) -> bool {
    match command.mcp {
        Some(mcp) => mcp.destructive || (mcp.annotations matches Some(a) && a.destructive_hint
            == Some(true)),
        None => false,
    }
}

/// The hint that a skill file gives.
pub open spec fn skill_hint(command: CommandDef) -> Option<Seq<char>> {
    if destructive(command) {
        match command.hint {
            Some(hint) => if occurs(hint@, confirm()) {
                Some(hint@)
            } else {
                Some(hint@ + " "@ + confirm())
            },
            None => Some(confirm()),
        }
    } else {
        opt_text(command.hint)
    }
}

/// What a skill file says of a command.
pub open spec fn info_of(name: Seq<char>, command: CommandDef) -> Info {
    Info {
        name,
        description: opt_text(command.description),
        args: fields(command.args_fields@),
        options: fields(command.options_fields@),
        env: fields(command.env_fields@),
        hint: skill_hint(command),
        examples: examples_of(command.examples@),
        output_schema: opt_value(command.output_schema),
    }
}

/// Whether a command is marked as destructive.
fn is_destructive(command: &CommandDef) -> (r: bool)
    ensures
        r == destructive(*command),
{
    match &command.mcp {
        Some(mcp) => {
            if mcp.destructive {
                return true;
            }
            match &mcp.annotations {
                Some(annotations) => match annotations.destructive_hint {
                    Some(hint) => hint,
                    None => false,
                },
                None => false,
            }
        },
        None => false,
    }
}

/// The hint that a skill file gives.
fn hint_for_skill(command: &CommandDef) -> (r: Option<String>)
    ensures
        opt_text(r) == skill_hint(*command),
{
    if !is_destructive(command) {
        return copy_opt(&command.hint);
    }
    let sentence = "Confirm with the user before executing this destructive command.";
    match &command.hint {
        Some(hint) => {
            if contains(hint.as_str(), sentence) {
                Some(hint.clone())
            } else {
                Some(cat3(hint.as_str(), " ", sentence))
            }
        },
        None => Some(sentence.to_string()),
    }
}

/// Describes a command for skill files.
pub fn skill_command_info(name: String, command: &CommandDef) -> (r: CommandInfo)
    ensures
        r@ == info_of(name@, *command),
{
    CommandInfo {
        name,
        description: copy_opt(&command.description),
        args_fields: copy_fields(&command.args_fields),
        options_fields: copy_fields(&command.options_fields),
        env_fields: copy_fields(&command.env_fields),
        hint: hint_for_skill(command),
        examples: copy_examples(&command.examples),
        output_schema: copy_opt_value(&command.output_schema),
    }
}

/// What skill files say of the leaf commands of a tree.
pub open spec fn tree_infos(commands: Seq<(String, CommandEntry)>, prefix: Seq<Seq<char>>) -> Seq<
    Info,
> {
    leaves(commands, prefix).map_values(
        |l: (Seq<Seq<char>>, CommandDef)| info_of(join(l.0, " "@), l.1),
    )
}

/// Recursively collects all leaf commands as [`CommandInfo`] for skill generation.
pub fn collect_command_info(commands: &Vec<(String, CommandEntry)>, prefix: &Vec<String>) -> (r:
    Vec<CommandInfo>)
    ensures
        infos(r@) == tree_infos(commands@, texts(prefix@)),
{
    let all = collect_leaves(commands, prefix);
    let ghost want = tree_infos(commands@, texts(prefix@));
    let ghost pairs = found(all@);
    let mut out: Vec<CommandInfo> = Vec::new();
    let mut i: usize = 0;
    while i < all.len()
        invariant
            i <= all@.len(),
            pairs == found(all@),
            pairs == leaves(commands@, texts(prefix@)),
            want == tree_infos(commands@, texts(prefix@)),
            infos(out@) == want.take(i as int),
        decreases all.len() - i,
    {
        let ghost was = infos(out@);
        assert(pairs[i as int] == (texts(all@[i as int].path@), *all@[i as int].command));
        let name = join_texts(&all[i].path, " ");
        out.push(skill_command_info(name, all[i].command));
        assert(infos(out@) =~= was.push(want[i as int]));
        assert(want.take(i + 1) =~= want.take(i as int).push(want[i as int]));
        i += 1;
    }
    assert(want.take(want.len() as int) =~= want);
    out
}

/// What skill files say of a command line: of its own command, under an empty
/// name, and of the leaf commands.
pub open spec fn all_infos(root: Option<&CommandDef>, commands: Seq<(String, CommandEntry)>) -> Seq<
    Info,
> {
    let own = match root {
        Some(command) => seq![info_of(Seq::empty(), *command)],
        None => Seq::empty(),
    };
    own + tree_infos(commands, Seq::empty())
}

/// Collects the command line's own command and all leaf commands.
pub fn collect_all_command_info(
    root: Option<&CommandDef>,
    commands: &Vec<(String, CommandEntry)>,
) -> (r: Vec<CommandInfo>)
    ensures
        infos(r@) == all_infos(root, commands@),
{
    let mut out: Vec<CommandInfo> = Vec::new();
    if let Some(command) = root {
        let name = String::new();
        assert(name@ =~= Seq::empty());
        out.push(skill_command_info(name, command));
        assert(infos(out@) =~= seq![info_of(Seq::empty(), *command)]);
    }
    let ghost head = infos(out@);
    let none: Vec<String> = Vec::new();
    assert(texts(none@) =~= Seq::empty());
    let mut more = collect_command_info(commands, &none);
    let ghost tail = infos(more@);
    out.append(&mut more);
    assert(infos(out@) =~= head + tail);
    assert(infos(out@) =~= all_infos(root, commands@));
    out
}

/// The descriptions of groups under their paths.
pub open spec fn described(all: Seq<(Seq<Seq<char>>, Option<Seq<char>>)>) -> Seq<
    (Seq<char>, Seq<char>),
>
    decreases all.len(),
{
    if all.len() == 0 {
        Seq::empty()
    } else {
        let head = described(all.drop_last());
        match all.last().1 {
            Some(text) => inserted(head, join(all.last().0, " "@), text),
            None => head,
        }
    }
}

/// Collects group descriptions for skill file generation.
pub fn collect_group_descriptions(commands: &Vec<(String, CommandEntry)>, prefix: &Vec<String>) -> (r:
    Vec<(String, String)>)
    ensures
        text_table(r@) == described(groups(commands@, texts(prefix@))),
{
    let all = collect_groups(commands, prefix);
    let ghost pairs = named_groups(all@);
    let mut out: Vec<(String, String)> = Vec::new();
    let mut i: usize = 0;
    assert(text_table(out@) =~= described(pairs.take(0)));
    while i < all.len()
        invariant
            i <= all@.len(),
            pairs == named_groups(all@),
            text_table(out@) == described(pairs.take(i as int)),
        decreases all.len() - i,
    {
        assert(pairs.take(i + 1).drop_last() =~= pairs.take(i as int));
        assert(pairs[i as int] == (texts(all@[i as int].path@), opt_text(
            all@[i as int].description,
        )));
        if let Some(text) = &all[i].description {
            insert_text(&mut out, join_texts(&all[i].path, " "), text.clone());
        }
        i += 1;
    }
    assert(pairs.take(pairs.len() as int) =~= pairs);
    out
}

// ---------------------------------------------------------------------------
// Schemas
// ---------------------------------------------------------------------------

/// The JSON Schemas of the fields of a command.
#[derive(Debug)]
pub struct SectionSchemas {
    /// Schema of the global options.
    pub globals: Value,
    /// Schema of the positional arguments.
    pub args: Value,
    /// Schema of the environment variables.
    pub env: Value,
    /// Schema of the named options.
    pub options: Value,
}

/// The value where the fields are not empty.
pub open spec fn unless_empty(v: Seq<FieldMeta>, schema: Value) -> Option<Json> {
    if v.len() == 0 {
        None
    } else {
        Some(schema@)
    }
}

/// The sections of a command's schema: each is there exactly if the command
/// declares something for it.
pub open spec fn schema_sections(
    command: CommandDef,
    globals: Seq<FieldMeta>,
    schemas: SectionSchemas,
) -> Seq<(Seq<char>, Json)> {
    let a = with_some(Seq::empty(), "globals"@, unless_empty(globals, schemas.globals));
    let b = with_some(a, "args"@, unless_empty(command.args_fields@, schemas.args));
    let c = with_some(b, "env"@, unless_empty(command.env_fields@, schemas.env));
    let d = with_some(c, "options"@, unless_empty(command.options_fields@, schemas.options));
    with_some(d, "output"@, opt_value(command.output_schema))
}

/// Builds a `--schema` JSON object for a command from the schemas of its
/// fields, with `args`, `env`, `options`, and `output` sections (each present
/// only when the command declares them).
pub fn build_command_schema(
    command: &CommandDef,
    globals_fields: &Vec<FieldMeta>,
    schemas: &SectionSchemas,
) -> (r: Value)
    ensures
        r@ == object(schema_sections(*command, globals_fields@, *schemas)),
{
    broadcast use {lemma_collected_push, lemma_object_view};

    let mut result = new_object();
    if globals_fields.len() > 0 {
        put(&mut result, "globals", schemas.globals.copy());
    }
    if command.args_fields.len() > 0 {
        put(&mut result, "args", schemas.args.copy());
    }
    if command.env_fields.len() > 0 {
        put(&mut result, "env", schemas.env.copy());
    }
    if command.options_fields.len() > 0 {
        put(&mut result, "options", schemas.options.copy());
    }
    if let Some(output) = &command.output_schema {
        put(&mut result, "output", output.copy());
    }
    Value::Object(result)
}

/// A usage example as a value.
pub open spec fn example_value(e: (Seq<char>, Option<Seq<char>>)) -> Json {
    object(
        Seq::empty().push(("command"@, Json::String(e.0))).push((
                "description"@,
                match e.1 {
                    Some(text) => Json::String(text),
                    None => Json::Null,
                },
            )),
    )
}

/// Makes a value of usage examples.
fn examples_value(examples: &Vec<Example>) -> (r: Value)
    ensures
        r@ == Json::Array(
            examples_of(examples@).map_values(
                |e: (Seq<char>, Option<Seq<char>>)| example_value(e),
            ),
        ),
{
    broadcast use lemma_array_view;

    let ghost all = examples_of(examples@).map_values(
        |e: (Seq<char>, Option<Seq<char>>)| example_value(e),
    );
    let mut out: Vec<Value> = Vec::new();
    let mut i: usize = 0;
    while i < examples.len()
        invariant
            i <= examples@.len(),
            all == examples_of(examples@).map_values(
                |e: (Seq<char>, Option<Seq<char>>)| example_value(e),
            ),
            values(out@) == all.take(i as int),
        decreases examples.len() - i,
    {
        broadcast use {lemma_collected_push, lemma_object_view};

        let ghost was = values(out@);
        let mut fields = new_object();
        put(&mut fields, "command", string_value(examples[i].command.as_str()));
        let description = match &examples[i].description {
            Some(text) => string_value(text.as_str()),
            None => Value::Null,
        };
        put(&mut fields, "description", description);
        let value = Value::Object(fields);
        assert(value@ == all[i as int]);
        out.push(value);
        assert(values(out@) =~= was.push(all[i as int]));
        assert(all.take(i + 1) =~= all.take(i as int).push(all[i as int]));
        i += 1;
    }
    assert(all.take(all.len() as int) =~= all);
    Value::Array(out)
}

/// What the manifest says of a command.
pub open spec fn manifest_entry(
    name: Seq<char>,
    command: CommandDef,
    schemas: Option<SectionSchemas>,
) -> Json {
    let a = with_some(
        seq![("name"@, Json::String(name))],
        "description"@,
        opt_string(opt_text(command.description)),
    );
    match schemas {
        Some(s) => {
            let sections = schema_sections(command, Seq::empty(), s);
            let b = with_some(
                a,
                "schema"@,
                if collected(sections).len() == 0 {
                    None
                } else {
                    Some(object(sections))
                },
            );
            object(
                with_some(
                    b,
                    "examples"@,
                    if command.examples@.len() == 0 {
                        None
                    } else {
                        Some(
                            Json::Array(
                                examples_of(command.examples@).map_values(
                                    |e: (Seq<char>, Option<Seq<char>>)| example_value(e),
                                ),
                            ),
                        )
                    },
                ),
            )
        },
        None => object(a),
    }
}

/// Describes a command for the manifest.
fn manifest_value(name: &str, command: &CommandDef, schemas: Option<&SectionSchemas>) -> (r: Value)
    ensures
        r@ == manifest_entry(
            name@,
            *command,
            match schemas {
                Some(s) => Some(*s),
                None => None,
            },
        ),
{
    broadcast use {lemma_collected_push, lemma_object_view};

    let mut value = new_object();
    put(&mut value, "name", string_value(name));
    if let Some(description) = &command.description {
        put(&mut value, "description", string_value(description.as_str()));
    }
    if let Some(s) = schemas {
        let none: Vec<FieldMeta> = Vec::new();
        let schema = build_command_schema(command, &none, s);
        assert(none@ =~= Seq::empty());
        let ghost sections = schema_sections(*command, Seq::empty(), *s);
        if let Value::Object(fields) = &schema {
            assert(entries(fields@) == collected(sections));
            if fields.len() > 0 {
                put(&mut value, "schema", schema);
            }
        }
        if command.examples.len() > 0 {
            put(&mut value, "examples", examples_value(&command.examples));
        }
    }
    Value::Object(value)
}

/// The schemas of the leaf command at position `i`, where the full manifest is
/// wanted.
pub open spec fn schemas_at(schemas: Seq<SectionSchemas>, full: bool, i: int) -> Option<
    SectionSchemas,
> {
    if full {
        Some(schemas[i])
    } else {
        None
    }
}

/// What the manifest says of the leaf commands, each under its name.
pub open spec fn manifest_entries(
    all: Seq<(Seq<Seq<char>>, CommandDef)>,
    schemas: Seq<SectionSchemas>,
    full: bool,
) -> Seq<(Seq<char>, Json)> {
    Seq::new(
        all.len(),
        |i: int|
            (
                join(all[i].0, " "@),
                manifest_entry(join(all[i].0, " "@), all[i].1, schemas_at(schemas, full, i)),
            ),
    )
}

/// The values of a list of entries.
pub open spec fn values_of(v: Seq<(Seq<char>, Json)>) -> Seq<Json> {
    v.map_values(|e: (Seq<char>, Json)| e.1)
}

/// The manifest of a command tree: its leaf commands in the order of their
/// names, and the schema of the global options where there are any.
pub open spec fn manifest(
    commands: Seq<(String, CommandEntry)>,
    schemas: Seq<SectionSchemas>,
    globals: Option<Json>,
    full: bool,
) -> Json {
    object(
        with_some(
            Seq::empty().push(("version"@, Json::String("incur.v1"@))).push((
                    "commands"@,
                    Json::Array(
                        values_of(
                            ordered(
                                manifest_entries(
                                    leaves(commands, Seq::empty()),
                                    schemas,
                                    full,
                                ),
                            ),
                        ),
                    ),
                )),
            "globals"@,
            globals,
        ),
    )
}

/// Takes the values out of a list of entries.
fn take_values(v: Vec<(String, Value)>) -> (r: Vec<Value>)
    ensures
        values(r@) == values_of(entries(v@)),
{
    let ghost all = values_of(entries(v@));
    let mut out: Vec<Value> = Vec::new();
    let mut i: usize = 0;
    while i < v.len()
        invariant
            i <= v@.len(),
            all == values_of(entries(v@)),
            values(out@) == all.take(i as int),
        decreases v.len() - i,
    {
        let ghost was = values(out@);
        out.push(v[i].1.copy());
        assert(values(out@) =~= was.push(all[i as int]));
        assert(all.take(i + 1) =~= all.take(i as int).push(all[i as int]));
        i += 1;
    }
    assert(all.take(all.len() as int) =~= all);
    out
}

/// Builds the manifest of a command tree. `schemas` holds the schemas of the
/// leaf commands, in the order in which [`collect_leaves`] gives them, and is
/// read for the full manifest only; `globals` is the schema of the global
/// options, where there are any.
pub fn build_llms_manifest(
    commands: &Vec<(String, CommandEntry)>,
    schemas: &Vec<SectionSchemas>,
    globals: Option<Value>,
    full: bool,
) -> (r: Value)
    requires
        full ==> schemas@.len() == leaves(commands@, Seq::empty()).len(),
    ensures
        r@ == manifest(commands@, schemas@, opt_value(globals), full),
{
    broadcast use {lemma_collected_push, lemma_object_view, lemma_array_view};

    let none: Vec<String> = Vec::new();
    assert(texts(none@) =~= Seq::empty());
    let all = collect_leaves(commands, &none);
    let ghost pairs = found(all@);
    let ghost want = manifest_entries(pairs, schemas@, full);
    let mut out: Vec<(String, Value)> = Vec::new();
    let mut i: usize = 0;
    while i < all.len()
        invariant
            i <= all@.len(),
            full ==> schemas@.len() == all@.len(),
            pairs == found(all@),
            want == manifest_entries(pairs, schemas@, full),
            entries(out@) == want.take(i as int),
        decreases all.len() - i,
    {
        let ghost was = entries(out@);
        let ghost path = texts(all@[i as int].path@);
        assert(pairs[i as int] == (path, *all@[i as int].command));
        let name = join_texts(&all[i].path, " ");
        let section: Option<&SectionSchemas> = if full {
            Some(&schemas[i])
        } else {
            None
        };
        let value = manifest_value(name.as_str(), all[i].command, section);
        assert(value@ == manifest_entry(
            name@,
            *all@[i as int].command,
            schemas_at(schemas@, full, i as int),
        ));
        out.push((name, value));
        assert(entries(out@) =~= was.push(want[i as int]));
        assert(want.take(i + 1) =~= want.take(i as int).push(want[i as int]));
        i += 1;
    }
    assert(want.take(want.len() as int) =~= want);
    let list = take_values(sort_entries(out));
    let mut result = new_object();
    put(&mut result, "version", string_value("incur.v1"));
    put(&mut result, "commands", Value::Array(list));
    if let Some(schema) = globals {
        put(&mut result, "globals", schema);
    }
    Value::Object(result)
}

// ---------------------------------------------------------------------------
// MCP tools
// ---------------------------------------------------------------------------

/// The name of the tool that a leaf command is exposed as, and nothing where it
/// is not exposed.
pub open spec fn tool_name(path: Seq<Seq<char>>, command: CommandDef) -> Option<Seq<char>> {
    match command.mcp {
        Some(mcp) => if mcp.enabled {
            match mcp.name {
                Some(name) => Some(name@),
                None => Some(join(path, "_"@)),
            }
        } else {
            None
        },
        None => Some(join(path, "_"@)),
    }
}

/// The description of the tool that a command is exposed as.
pub open spec fn tool_description(command: CommandDef) -> Option<Seq<char>> {
    match command.mcp {
        Some(mcp) => match mcp.description {
            Some(text) => Some(text@),
            None => opt_text(command.description),
        },
        None => opt_text(command.description),
    }
}

/// The tools that are exposed, each under its name.
pub open spec fn exposed(all: Seq<(Seq<Seq<char>>, CommandDef)>, filter: McpToolFilter) -> Seq<
    (Seq<char>, Json),
>
    decreases all.len(),
{
    if all.len() == 0 {
        Seq::empty()
    } else {
        let head = exposed(all.drop_last(), filter);
        let (path, command) = all.last();
        match tool_name(path, command) {
            Some(name) => if selected(name, filter) {
                head.push(
                    (
                        name,
                        object(
                            with_some(
                                seq![("name"@, Json::String(name))],
                                "description"@,
                                opt_string(tool_description(command)),
                            ),
                        ),
                    ),
                )
            } else {
                head
            },
            None => head,
        }
    }
}

/// What `mcp doctor` reports: the exposed tools in the order of their names,
/// and a warning where there are none.
pub open spec fn doctor_report(commands: Seq<(String, CommandEntry)>, filter: McpToolFilter) -> Json {
    let tools = values_of(ordered(exposed(leaves(commands, Seq::empty()), filter)));
    object(
        Seq::empty().push(("ok"@, Json::Bool(true))).push(("toolCount"@, natural(tools.len()))).push(("tools"@, Json::Array(tools))).push((
                "warnings"@,
                Json::Array(
                    if tools.len() == 0 {
                        seq![Json::String("No MCP tools exposed."@)]
                    } else {
                        Seq::empty()
                    },
                ),
            )).push(("errors"@, Json::Array(Seq::empty()))),
    )
}

/// The name of the tool that a leaf command is exposed as.
pub fn exposed_name(path: &Vec<String>, command: &CommandDef) -> (r: Option<String>)
    ensures
        opt_text(r) == tool_name(texts(path@), *command),
{
    match &command.mcp {
        Some(mcp) => {
            if !mcp.enabled {
                return None;
            }
            match &mcp.name {
                Some(name) => Some(name.clone()),
                None => Some(join_texts(path, "_")),
            }
        },
        None => Some(join_texts(path, "_")),
    }
}

/// The description of the tool that a command is exposed as.
pub fn exposed_description(command: &CommandDef) -> (r: Option<String>)
    ensures
        opt_text(r) == tool_description(*command),
{
    if let Some(mcp) = &command.mcp {
        if let Some(text) = &mcp.description {
            return Some(text.clone());
        }
    }
    copy_opt(&command.description)
}

/// Describes the tools that are exposed, each under its name.
fn exposed_tools(all: &Vec<LeafCommand>, filter: &McpToolFilter) -> (r: Vec<(String, Value)>)
    ensures
        entries(r@) == exposed(found(all@), *filter),
{
    let ghost pairs = found(all@);
    let mut out: Vec<(String, Value)> = Vec::new();
    let mut i: usize = 0;
    assert(entries(out@) =~= exposed(pairs.take(0), *filter));
    while i < all.len()
        invariant
            i <= all@.len(),
            pairs == found(all@),
            entries(out@) == exposed(pairs.take(i as int), *filter),
        decreases all.len() - i,
    {
        broadcast use {lemma_collected_push, lemma_object_view};

        let ghost was = entries(out@);
        assert(pairs.take(i + 1).drop_last() =~= pairs.take(i as int));
        assert(pairs[i as int] == (texts(all@[i as int].path@), *all@[i as int].command));
        if let Some(name) = exposed_name(&all[i].path, all[i].command) {
            if matches_tool_filter(name.as_str(), filter) {
                let mut tool = new_object();
                put(&mut tool, "name", string_value(name.as_str()));
                if let Some(text) = exposed_description(all[i].command) {
                    put(&mut tool, "description", Value::String(text));
                }
                let value = Value::Object(tool);
                let ghost next = (name@, value@);
                out.push((name, value));
                assert(entries(out@) =~= was.push(next));
            }
        }
        i += 1;
    }
    assert(pairs.take(pairs.len() as int) =~= pairs);
    out
}

/// Reports the tools that a command tree exposes.
pub fn mcp_doctor_result(commands: &Vec<(String, CommandEntry)>, filter: &McpToolFilter) -> (r: Value)
    ensures
        r@ == doctor_report(commands@, *filter),
{
    broadcast use {lemma_collected_push, lemma_object_view, lemma_array_view};

    let none: Vec<String> = Vec::new();
    assert(texts(none@) =~= Seq::empty());
    let all = collect_leaves(commands, &none);
    let tools = take_values(sort_entries(exposed_tools(&all, filter)));
    let mut warnings: Vec<Value> = Vec::new();
    if tools.len() == 0 {
        warnings.push(string_value("No MCP tools exposed."));
        assert(values(warnings@) =~= seq![Json::String("No MCP tools exposed."@)]);
    } else {
        assert(values(warnings@) =~= Seq::empty());
    }
    let errors: Vec<Value> = Vec::new();
    assert(values(errors@) =~= Seq::empty());
    let mut result = new_object();
    put(&mut result, "ok", Value::Bool(true));
    put(&mut result, "toolCount", Value::Number(Number::PosInt(tools.len() as u64)));
    put(&mut result, "tools", Value::Array(tools));
    put(&mut result, "warnings", Value::Array(warnings));
    put(&mut result, "errors", Value::Array(errors));
    Value::Object(result)
}

/// Every command of the tree has its description for agents, under its path and with all
/// that it was declared with.
pub proof fn law_every_command_is_described(commands: Seq<(String, CommandEntry)>, k: int)
    requires
        0 <= k < leaves(commands, Seq::empty()).len(),
    ensures
        ({
            let all = tree_infos(commands, Seq::empty());
            let (path, command) = leaves(commands, Seq::empty())[k];
            &&& all.len() == leaves(commands, Seq::empty()).len()
            &&& all[k].name == join(path, " "@)
            &&& all[k].description == opt_text(command.description)
            &&& all[k].args == fields(command.args_fields@)
            &&& all[k].options == fields(command.options_fields@)
            &&& all[k].env == fields(command.env_fields@)
            &&& all[k].examples == examples_of(command.examples@)
            &&& all[k].output_schema == opt_value(command.output_schema)
        }),
{
}

/// The command line's own command is described first, without a name.
pub proof fn law_own_command_is_described_first(
    root: CommandDef,
    commands: Seq<(String, CommandEntry)>,
)
    ensures
        all_infos(None, commands) == tree_infos(commands, Seq::empty()),
        ({
            let all = all_infos(Some(&root), commands);
            &&& all.len() == tree_infos(commands, Seq::empty()).len() + 1
            &&& all[0].name.len() == 0
            &&& all[0].description == opt_text(root.description)
            &&& all[0].args == fields(root.args_fields@)
            &&& all[0].options == fields(root.options_fields@)
            &&& all.skip(1) == tree_infos(commands, Seq::empty())
        }),
{
    let none: Option<&CommandDef> = None;
    assert(all_infos(none, commands) =~= tree_infos(commands, Seq::empty()));
    assert(all_infos(Some(&root), commands).skip(1) =~= tree_infos(commands, Seq::empty()));
}

/// The hint of a command that destroys asks to confirm, and says it once; any other hint
/// is the command's own.
pub proof fn law_destruction_is_confirmed(command: CommandDef)
    ensures
        command.mcp is None ==> skill_hint(command) == opt_text(command.hint),
        command.mcp matches Some(mcp) ==> (!mcp.destructive && mcp.annotations is None
            ==> skill_hint(command) == opt_text(command.hint)),
        command.mcp matches Some(mcp) ==> (mcp.destructive ==> {
            &&& skill_hint(command) matches Some(hint)
            &&& occurs(
                hint,
                "Confirm with the user before executing this destructive command."@,
            )
            &&& command.hint matches Some(own) ==> own@.is_prefix_of(hint)
            &&& command.hint matches Some(own) ==> (occurs(
                own@,
                "Confirm with the user before executing this destructive command."@,
            ) ==> hint == own@)
        }),
        command.mcp matches Some(mcp) ==> (mcp.annotations matches Some(a) ==> (a.destructive_hint
            == Some(true) ==> (skill_hint(command) matches Some(hint) && occurs(
            hint,
            "Confirm with the user before executing this destructive command."@,
        )))),
{
    if destructive(command) {
        let hint = skill_hint(command)->0;
        match command.hint {
            Some(own) => {
                if !occurs(own@, confirm()) {
                    let at = own@.len() + " "@.len();
                    assert(hint.subrange(at as int, (at + confirm().len()) as int) =~= confirm());
                    assert(crate::text::occurs_at(hint, confirm(), at as int));
                    assert(hint.subrange(0, own@.len() as int) =~= own@);
                } else {
                    assert(hint.subrange(0, own@.len() as int) =~= own@);
                }
            },
            None => {
                assert(hint.subrange(0, confirm().len() as int) =~= confirm());
                assert(crate::text::occurs_at(hint, confirm(), 0));
            },
        }
    }
}

/// The schema of a command has a section for each kind of field that it has, and one for
/// its output where it declares one.
pub proof fn law_sections_are_those_declared(
    command: CommandDef,
    globals: Seq<FieldMeta>,
    schemas: SectionSchemas,
)
    ensures
        ({
            let sections = object(schema_sections(command, globals, schemas));
            &&& globals.len() > 0 ==> field(sections, "globals"@) == Some(schemas.globals@)
            &&& globals.len() == 0 ==> field(sections, "globals"@) is None
            &&& command.args_fields@.len() > 0 ==> field(sections, "args"@) == Some(schemas.args@)
            &&& command.args_fields@.len() == 0 ==> field(sections, "args"@) is None
            &&& command.env_fields@.len() > 0 ==> field(sections, "env"@) == Some(schemas.env@)
            &&& command.env_fields@.len() == 0 ==> field(sections, "env"@) is None
            &&& command.options_fields@.len() > 0 ==> field(sections, "options"@) == Some(
                schemas.options@,
            )
            &&& command.options_fields@.len() == 0 ==> field(sections, "options"@) is None
            &&& field(sections, "output"@) == opt_value(command.output_schema)
        }),
{
    broadcast use {lemma_collected_found, lemma_nothing_collected};

    lemma_section_keys();
}

/// The names of the sections differ.
proof fn lemma_section_keys()
    ensures
        "globals"@ != "args"@,
        "globals"@ != "env"@,
        "globals"@ != "options"@,
        "globals"@ != "output"@,
        "args"@ != "env"@,
        "args"@ != "options"@,
        "args"@ != "output"@,
        "env"@ != "options"@,
        "env"@ != "output"@,
        "options"@ != "output"@,
{
    reveal_strlit("globals");
    reveal_strlit("args");
    reveal_strlit("env");
    reveal_strlit("options");
    reveal_strlit("output");
    assert("globals"@.len() == 7);
    assert("args"@.len() == 4);
    assert("env"@.len() == 3);
    assert("options"@.len() == 7);
    assert("output"@.len() == 6);
    assert("globals"@[0] == 'g');
    assert("options"@[0] == 'o');
}

/// The entry of a command in the manifest has its name and description; where schemas
/// are asked for, also its schema, unless it has no section, and its examples, unless it
/// has none.
pub proof fn law_entries_tell_of_commands(
    name: Seq<char>,
    command: CommandDef,
    schemas: Option<SectionSchemas>,
)
    ensures
        ({
            let entry = manifest_entry(name, command, schemas);
            &&& field(entry, "name"@) == Some(Json::String(name))
            &&& command.description is None ==> field(entry, "description"@) is None
            &&& command.description matches Some(text) ==> field(entry, "description"@) == Some(
                Json::String(text@),
            )
            &&& schemas is None ==> field(entry, "schema"@) is None && field(entry, "examples"@) is None
            &&& schemas is Some && command.examples@.len() == 0 ==> field(entry, "examples"@) is None
            &&& schemas is Some && command.examples@.len() > 0 ==> (field(entry, "examples"@) matches Some(
                Json::Array(all),
            ) && all.len() == command.examples@.len())
            &&& schemas matches Some(s) ==> {
                let sections = object(schema_sections(command, Seq::empty(), s));
                &&& command.args_fields@.len() > 0 || command.env_fields@.len() > 0
                    || command.options_fields@.len() > 0 || command.output_schema is Some ==> field(
                    entry,
                    "schema"@,
                ) == Some(sections)
                &&& command.args_fields@.len() == 0 && command.env_fields@.len() == 0
                    && command.options_fields@.len() == 0 && command.output_schema is None ==> field(
                    entry,
                    "schema"@,
                ) is None
            }
        }),
{
    broadcast use {lemma_collected_found, lemma_nothing_collected};

    lemma_entry_keys();
    if let Some(s) = schemas {
        let sections = schema_sections(command, Seq::empty(), s);
        law_sections_are_those_declared(command, Seq::empty(), s);
        if collected(sections).len() == 0 {
            lemma_nothing_in_empty(collected(sections), "args"@);
            lemma_nothing_in_empty(collected(sections), "env"@);
            lemma_nothing_in_empty(collected(sections), "options"@);
            lemma_nothing_in_empty(collected(sections), "output"@);
        }
        if sections.len() == 0 {
            assert(collected(sections).len() == 0);
        }
        if command.args_fields@.len() == 0 && command.env_fields@.len() == 0
            && command.options_fields@.len() == 0 && command.output_schema is None {
            assert(sections.len() == 0);
        }
    }
}

proof fn lemma_nothing_in_empty(all: Seq<(Seq<char>, Json)>, key: Seq<char>)
    requires
        all.len() == 0,
    ensures
        lookup(all, key) is None,
{
}

/// The keys of manifests and reports differ.
proof fn lemma_entry_keys()
    ensures
        "name"@ != "description"@,
        "name"@ != "schema"@,
        "name"@ != "examples"@,
        "name"@ != "version"@,
        "name"@ != "commands"@,
        "name"@ != "globals"@,
        "name"@ != "command"@,
        "name"@ != "ok"@,
        "name"@ != "toolCount"@,
        "name"@ != "tools"@,
        "name"@ != "warnings"@,
        "name"@ != "errors"@,
        "description"@ != "schema"@,
        "description"@ != "examples"@,
        "description"@ != "version"@,
        "description"@ != "commands"@,
        "description"@ != "globals"@,
        "description"@ != "command"@,
        "description"@ != "ok"@,
        "description"@ != "toolCount"@,
        "description"@ != "tools"@,
        "description"@ != "warnings"@,
        "description"@ != "errors"@,
        "schema"@ != "examples"@,
        "schema"@ != "version"@,
        "schema"@ != "commands"@,
        "schema"@ != "globals"@,
        "schema"@ != "command"@,
        "schema"@ != "ok"@,
        "schema"@ != "toolCount"@,
        "schema"@ != "tools"@,
        "schema"@ != "warnings"@,
        "schema"@ != "errors"@,
        "examples"@ != "version"@,
        "examples"@ != "commands"@,
        "examples"@ != "globals"@,
        "examples"@ != "command"@,
        "examples"@ != "ok"@,
        "examples"@ != "toolCount"@,
        "examples"@ != "tools"@,
        "examples"@ != "warnings"@,
        "examples"@ != "errors"@,
        "version"@ != "commands"@,
        "version"@ != "globals"@,
        "version"@ != "command"@,
        "version"@ != "ok"@,
        "version"@ != "toolCount"@,
        "version"@ != "tools"@,
        "version"@ != "warnings"@,
        "version"@ != "errors"@,
        "commands"@ != "globals"@,
        "commands"@ != "command"@,
        "commands"@ != "ok"@,
        "commands"@ != "toolCount"@,
        "commands"@ != "tools"@,
        "commands"@ != "warnings"@,
        "commands"@ != "errors"@,
        "globals"@ != "command"@,
        "globals"@ != "ok"@,
        "globals"@ != "toolCount"@,
        "globals"@ != "tools"@,
        "globals"@ != "warnings"@,
        "globals"@ != "errors"@,
        "command"@ != "ok"@,
        "command"@ != "toolCount"@,
        "command"@ != "tools"@,
        "command"@ != "warnings"@,
        "command"@ != "errors"@,
        "ok"@ != "toolCount"@,
        "ok"@ != "tools"@,
        "ok"@ != "warnings"@,
        "ok"@ != "errors"@,
        "toolCount"@ != "tools"@,
        "toolCount"@ != "warnings"@,
        "toolCount"@ != "errors"@,
        "tools"@ != "warnings"@,
        "tools"@ != "errors"@,
        "warnings"@ != "errors"@,
{
    reveal_strlit("name");
    reveal_strlit("description");
    reveal_strlit("schema");
    reveal_strlit("examples");
    reveal_strlit("version");
    reveal_strlit("commands");
    reveal_strlit("globals");
    reveal_strlit("command");
    reveal_strlit("ok");
    reveal_strlit("toolCount");
    reveal_strlit("tools");
    reveal_strlit("warnings");
    reveal_strlit("errors");
    assert("name"@.len() == 4);
    assert("description"@.len() == 11);
    assert("schema"@.len() == 6);
    assert("examples"@.len() == 8);
    assert("version"@.len() == 7);
    assert("commands"@.len() == 8);
    assert("globals"@.len() == 7);
    assert("command"@.len() == 7);
    assert("ok"@.len() == 2);
    assert("toolCount"@.len() == 9);
    assert("tools"@.len() == 5);
    assert("warnings"@.len() == 8);
    assert("errors"@.len() == 6);
    assert("command"@[0] == 'c');
    assert("commands"@[0] == 'c');
    assert("errors"@[0] == 'e');
    assert("examples"@[0] == 'e');
    assert("globals"@[0] == 'g');
    assert("schema"@[0] == 's');
    assert("version"@[0] == 'v');
    assert("warnings"@[0] == 'w');
}

/// An example shows its command, and its description or null.
pub proof fn law_examples_are_shown(e: (Seq<char>, Option<Seq<char>>))
    ensures
        field(example_value(e), "command"@) == Some(Json::String(e.0)),
        e.1 is None ==> field(example_value(e), "description"@) == Some(Json::Null),
        e.1 matches Some(text) ==> field(example_value(e), "description"@) == Some(
            Json::String(text),
        ),
{
    broadcast use {lemma_collected_found, lemma_nothing_collected};

    lemma_entry_keys();
}

/// The manifest has the version, an entry for every command of the tree and no other, in
/// the order of their names, and the global options where there are any.
pub proof fn law_manifest_lists_every_command(
    commands: Seq<(String, CommandEntry)>,
    schemas: Seq<SectionSchemas>,
    globals: Option<Json>,
    full: bool,
    k: int,
)
    requires
        0 <= k < leaves(commands, Seq::empty()).len(),
    ensures
        ({
            let value = manifest(commands, schemas, globals, full);
            let (path, command) = leaves(commands, Seq::empty())[k];
            &&& field(value, "version"@) == Some(Json::String("incur.v1"@))
            &&& field(value, "globals"@) == globals
            &&& field(value, "commands"@) matches Some(Json::Array(all))
            &&& all.len() == leaves(commands, Seq::empty()).len()
            &&& all.contains(
                manifest_entry(
                    join(path, " "@),
                    command,
                    if full {
                        Some(schemas[k])
                    } else {
                        None
                    },
                ),
            )
        }),
{
    broadcast use {lemma_collected_found, lemma_nothing_collected};

    lemma_entry_keys();
    let entries = manifest_entries(leaves(commands, Seq::empty()), schemas, full);
    lemma_ordered_holds(entries, k);
}

/// A sorted list holds the values of all entries.
proof fn lemma_ordered_holds(entries: Seq<(Seq<char>, Json)>, k: int)
    requires
        0 <= k < entries.len(),
    ensures
        values_of(ordered(entries)).len() == entries.len(),
        values_of(ordered(entries)).contains(entries[k].1),
{
    let all = ordered(entries);
    crate::table::lemma_ordered(entries);
    entries.to_multiset_ensures();
    all.to_multiset_ensures();
    assert(entries.contains(entries[k]));
    assert(entries.to_multiset().count(entries[k]) > 0);
    assert(all.contains(entries[k]));
    let i = choose|i: int| 0 <= i < all.len() && all[i] == entries[k];
    assert(values_of(all)[i] == entries[k].1);
}

/// A command is a tool under its own tool name, or else under its path, unless it is
/// switched off or the filter leaves it out; the description for tools wins over that of
/// the command.
pub proof fn law_tools_are_exposed(
    a: Seq<(Seq<Seq<char>>, CommandDef)>,
    b: Seq<(Seq<Seq<char>>, CommandDef)>,
    one: (Seq<Seq<char>>, CommandDef),
    filter: McpToolFilter,
)
    ensures
        exposed(a + b, filter) == exposed(a, filter) + exposed(b, filter),
        one.1.mcp matches Some(mcp) ==> (!mcp.enabled ==> exposed(seq![one], filter).len() == 0),
        one.1.mcp is None ==> (exposed(seq![one], filter).len() == 1 <==> selected(join(one.0, "_"@), filter)) && exposed(seq![one], filter).len() <= 1,
        one.1.mcp is None && selected(join(one.0, "_"@), filter) ==> exposed(seq![one], filter)[0].0 == join(one.0, "_"@)
            && field(exposed(seq![one], filter)[0].1, "name"@) == Some(Json::String(join(one.0, "_"@)))
            && field(exposed(seq![one], filter)[0].1, "description"@) == opt_string(opt_text(one.1.description)),
        one.1.mcp matches Some(mcp) ==> (mcp.enabled ==> {
            let name = match mcp.name {
                Some(own) => own@,
                None => join(one.0, "_"@),
            };
            &&& exposed(seq![one], filter).len() == 1 <==> selected(name, filter)
            &&& exposed(seq![one], filter).len() <= 1
            &&& selected(name, filter) ==> exposed(seq![one], filter)[0].0 == name && field(exposed(seq![one], filter)[0].1, "name"@) == Some(
                Json::String(name),
            )
            &&& selected(name, filter) && mcp.description is Some ==> field(
                exposed(seq![one], filter)[0].1,
                "description"@,
            ) == Some(Json::String(mcp.description->0@))
            &&& selected(name, filter) && mcp.description is None ==> field(
                exposed(seq![one], filter)[0].1,
                "description"@,
            ) == opt_string(opt_text(one.1.description))
        }),
    decreases b.len(),
{
    broadcast use {lemma_collected_found, lemma_nothing_collected};

    lemma_entry_keys();
    lemma_one_pair();
    reveal_with_fuel(exposed, 2);
    assert(seq![one].drop_last() =~= Seq::empty());
    assert(exposed(seq![one].drop_last(), filter) =~= Seq::empty());
    if b.len() == 0 {
        assert(a + b =~= a);
        assert(exposed(a, filter) + exposed(b, filter) =~= exposed(a, filter));
    } else {
        law_tools_are_exposed(a, b.drop_last(), one, filter);
        assert((a + b).drop_last() =~= a + b.drop_last());
        assert((a + b).last() == b.last());
        assert(exposed(a + b, filter) =~= exposed(a, filter) + exposed(b, filter));
    }
}

proof fn lemma_one_pair()
    ensures
        forall|pair: (Seq<char>, Json)| #[trigger] seq![pair] == Seq::empty().push(pair),
{
    assert forall|pair: (Seq<char>, Json)| #[trigger] seq![pair] == Seq::empty().push(pair) by {
        assert(seq![pair] =~= Seq::empty().push(pair));
    }
}

/// The report on tools counts them and lists every one; it warns exactly where there is
/// none, and has no error.
pub proof fn law_doctor_tells_of_tools(
    commands: Seq<(String, CommandEntry)>,
    filter: McpToolFilter,
)
    ensures
        ({
            let report = doctor_report(commands, filter);
            let tools = exposed(leaves(commands, Seq::empty()), filter);
            &&& field(report, "ok"@) == Some(Json::Bool(true))
            &&& field(report, "toolCount"@) == Some(
                Json::Number(Number::PosInt(tools.len() as u64)),
            )
            &&& field(report, "tools"@) matches Some(Json::Array(all))
            &&& all.len() == tools.len()
            &&& forall|k: int| 0 <= k < tools.len() ==> all.contains((#[trigger] tools[k]).1)
            &&& field(report, "warnings"@) matches Some(Json::Array(warnings))
            &&& warnings.len() > 0 <==> tools.len() == 0
            &&& field(report, "errors"@) == Some(Json::Array(Seq::empty()))
        }),
{
    broadcast use {lemma_collected_found, lemma_nothing_collected};

    lemma_entry_keys();
    let tools = exposed(leaves(commands, Seq::empty()), filter);
    crate::table::lemma_ordered(tools);
    assert forall|k: int| 0 <= k < tools.len() implies values_of(ordered(tools)).contains(
        (#[trigger] tools[k]).1,
    ) by {
        lemma_ordered_holds(tools, k);
    }
}

/// The groups with a description are found by their paths.
pub proof fn law_described_groups_are_found(
    all: Seq<(Seq<Seq<char>>, Option<Seq<char>>)>,
    path: Seq<Seq<char>>,
    text: Seq<char>,
    other: Seq<char>,
)
    ensures
        lookup(described(all.push((path, Some(text)))), join(path, " "@)) == Some(text),
        other != join(path, " "@) ==> lookup(described(all.push((path, Some(text)))), other)
            == lookup(described(all), other),
        described(all.push((path, None))) == described(all),
{
    assert(all.push((path, Some(text))).drop_last() =~= all);
    assert(all.push((path, None)).drop_last() =~= all);
    crate::table::lemma_lookup_inserted(described(all), join(path, " "@), text, join(path, " "@));
    crate::table::lemma_lookup_inserted(described(all), join(path, " "@), text, other);
}

} // verus!
