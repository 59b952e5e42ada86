//! Commands as MCP tools.

use vstd::prelude::*;
use crate::schema::{fields, Field, FieldMeta, FieldType, Kind};
use crate::table;
use crate::table::{keyed, mapped, ordered};
use crate::text::{copy_opt, join, join_texts, opt_text, texts};
use crate::value::{
    collected, copy_opt_value, entries, field, law_last_entry_is_held, lemma_collected_found,
    lemma_collected_push, lemma_nothing_collected, lemma_object_view, new_object, object,
    opt_string, opt_value, put, store, string_value, strings, strings_value, with_some, Json, Value,
};

verus! {

/// A resolved tool entry from the command tree.
#[derive(Debug)]
pub struct ToolEntry {
    /// Tool name (path segments joined with `_`).
    pub name: String,
    /// Human-readable description.
    pub description: Option<String>,
    /// Merged JSON Schema for the tool's input.
    pub input_schema: Value,
    /// JSON Schema for the tool's output.
    pub output_schema: Option<Value>,
}

/// What a [`ToolEntry`] means.
pub struct Tool {
    /// Tool name.
    pub name: Seq<char>,
    /// Description.
    pub description: Option<Seq<char>>,
    /// Schema of the input.
    pub input_schema: Json,
    /// Schema of the output.
    pub output_schema: Option<Json>,
}

impl View for ToolEntry {
    type V = Tool;

    open spec fn view(&self) -> Tool {
        Tool {
            name: self.name@,
            description: opt_text(self.description),
            input_schema: self.input_schema@,
            output_schema: opt_value(self.output_schema),
        }
    }
}

/// What tool entries mean, by their names.
pub open spec fn named_tools(v: Seq<ToolEntry>) -> Seq<(Seq<char>, Tool)> {
    v.map_values(|t: ToolEntry| (t.name@, t@))
}

/// A command entry in the command tree for MCP tool collection.
#[derive(Debug)]
pub struct CommandEntry {
    /// Whether this entry is a group (has subcommands).
    pub is_group: bool,
    /// Human-readable description.
    pub description: Option<String>,
    /// Subcommands (only populated for groups).
    pub commands: Vec<(String, CommandEntry)>,
    /// Positional argument field metadata.
    pub args_fields: Vec<FieldMeta>,
    /// Named option field metadata.
    pub options_fields: Vec<FieldMeta>,
    /// JSON Schema for the command's output.
    pub output_schema: Option<Value>,
}

/// The JSON Schema type of a field's type.
pub open spec fn json_type(kind: Kind) -> Seq<char> {
    match kind {
        Kind::Number => "number"@,
        Kind::Count => "number"@,
        Kind::Boolean => "boolean"@,
        Kind::Array(_) => "array"@,
        _ => "string"@,
    }
}

/// Maps a field's type to its JSON Schema type string.
pub fn field_type_to_json_type(ft: &FieldType) -> (r: String)
    ensures
        r@ == json_type(ft@),
{
    match ft {
        FieldType::Number => "number".to_string(),
        FieldType::Count => "number".to_string(),
        FieldType::Boolean => "boolean".to_string(),
        FieldType::Array(_) => "array".to_string(),
        FieldType::String => "string".to_string(),
        FieldType::Enum(_) => "string".to_string(),
        FieldType::Value => "string".to_string(),
    }
}

/// The schema of a field.
pub open spec fn property(field: Field) -> Json {
    object(
        with_some(
            with_some(
                Seq::empty().push(("type"@, Json::String(json_type(field.kind)))),
                "description"@,
                opt_string(field.description),
            ),
            "default"@,
            field.default,
        ),
    )
}

/// The names of the fields that must be given.
pub open spec fn required_names(fields: Seq<Field>) -> Seq<Seq<char>>
    decreases fields.len(),
{
    if fields.len() == 0 {
        Seq::empty()
    } else {
        let before = required_names(fields.drop_last());
        if fields.last().required {
            before.push(fields.last().name)
        } else {
            before
        }
    }
}

/// The schema of the input that fields describe.
pub open spec fn input_schema(fields: Seq<Field>) -> Json {
    let required = required_names(fields);
    object(
        with_some(
            Seq::empty().push(("type"@, Json::String("object"@))).push(
                (
                    "properties"@,
                    object(fields.map_values(|f: Field| (f.name, property(f)))),
                ),
            ),
            "required"@,
            if required.len() == 0 {
                None
            } else {
                Some(strings(required))
            },
        ),
    )
}

fn property_value(field: &FieldMeta) -> (r: Value)
    ensures
        r@ == property(field@),
{
    broadcast use {lemma_collected_push, lemma_object_view};

    let mut prop = new_object();
    put(&mut prop, "type", Value::String(field_type_to_json_type(&field.field_type)));
    if let Some(description) = &field.description {
        put(&mut prop, "description", string_value(description.as_str()));
    }
    if let Some(default) = &field.default {
        put(&mut prop, "default", default.copy());
    }
    Value::Object(prop)
}

fn add_fields(
    properties: &mut Vec<(String, Value)>,
    required: &mut Vec<String>,
    before: Ghost<Seq<Field>>,
    list: &Vec<FieldMeta>,
)
    requires
        entries(old(properties)@) == collected(
            before@.map_values(|f: Field| (f.name, property(f))),
        ),
        texts(old(required)@) == required_names(before@),
    ensures
        entries(final(properties)@) == collected(
            (before@ + fields(list@)).map_values(|f: Field| (f.name, property(f))),
        ),
        texts(final(required)@) == required_names(before@ + fields(list@)),
{
    let ghost base = before@;
    let ghost all = base + fields(list@);
    let mut i: usize = 0;
    assert(all.take(base.len() as int) =~= base);
    while i < list.len()
        invariant
            i <= list@.len(),
            all == base + fields(list@),
            entries(properties@) == collected(
                all.take(base.len() + i).map_values(|f: Field| (f.name, property(f))),
            ),
            texts(required@) == required_names(all.take(base.len() + i)),
        decreases list.len() - i,
    {
        let ghost now = all.take(base.len() + i + 1);
        let ghost pairs = now.map_values(|f: Field| (f.name, property(f)));
        assert(now.drop_last() =~= all.take(base.len() + i));
        assert(now.last() == list@[i as int]@);
        assert(pairs.drop_last() =~= now.drop_last().map_values(
            |f: Field| (f.name, property(f)),
        ));
        let field = &list[i];
        store(properties, field.name.clone(), property_value(field));
        let ghost was = texts(required@);
        if field.required {
            required.push(field.name.clone());
            assert(texts(required@) =~= was.push(field.name@));
        }
        i += 1;
    }
    assert(all.take(all.len() as int) =~= all);
}

/// Builds a merged JSON Schema from args and options field metadata.
pub fn build_tool_schema(args_fields: &Vec<FieldMeta>, options_fields: &Vec<FieldMeta>) -> (r:
    Value)
    ensures
        r@ == input_schema(fields(args_fields@) + fields(options_fields@)),
{
    broadcast use {lemma_collected_push, lemma_object_view};

    let mut properties = new_object();
    let mut required: Vec<String> = Vec::new();
    let ghost none = Seq::<Field>::empty();
    assert(none.map_values(|f: Field| (f.name, property(f))) =~= Seq::empty());
    assert(texts(required@) =~= required_names(none));
    add_fields(&mut properties, &mut required, Ghost(none), args_fields);
    assert(none + fields(args_fields@) =~= fields(args_fields@));
    add_fields(&mut properties, &mut required, Ghost(fields(args_fields@)), options_fields);
    let mut schema = new_object();
    put(&mut schema, "type", string_value("object"));
    put(&mut schema, "properties", Value::Object(properties));
    if required.len() > 0 {
        put(&mut schema, "required", strings_value(&required));
    }
    Value::Object(schema)
}

/// The tools of an entry that `path` leads to.
pub open spec fn entry_tools(entry: CommandEntry, path: Seq<Seq<char>>) -> Seq<(Seq<char>, Tool)>
    decreases entry, 0nat,
{
    if entry.is_group {
        ordered(level_tools(entry.commands@, path))
    } else {
        let name = join(path, "_"@);
        seq![
            (
                name,
                Tool {
                    name,
                    description: opt_text(entry.description),
                    input_schema: input_schema(
                        fields(entry.args_fields@) + fields(entry.options_fields@),
                    ),
                    output_schema: opt_value(entry.output_schema),
                },
            ),
        ]
    }
}

/// The tools of the entries of one level, in the order of the entries.
pub open spec fn level_tools(commands: Seq<(String, CommandEntry)>, prefix: Seq<Seq<char>>) -> Seq<
    (Seq<char>, Tool),
>
    decreases commands, commands.len(),
{
    if commands.len() == 0 {
        Seq::empty()
    } else {
        level_tools(commands.drop_last(), prefix) + entry_tools(
            commands.last().1,
            prefix.push(commands.last().0@),
        )
    }
}

spec fn tool_models(v: Seq<(String, ToolEntry)>) -> Seq<(Seq<char>, Tool)> {
    mapped(keyed(v), |t: ToolEntry| t@)
}

/// Every tool is listed under its own name.
spec fn under_names(v: Seq<(Seq<char>, Tool)>) -> bool {
    forall|i: int| 0 <= i < v.len() ==> (#[trigger] v[i]).0 == v[i].1.name
}

proof fn lemma_ordered_under_names(v: Seq<(Seq<char>, Tool)>)
    requires
        under_names(v),
    ensures
        under_names(ordered(v)),
    decreases v.len(),
{
    if v.len() > 0 {
        let head = v.drop_last();
        assert forall|i: int| 0 <= i < head.len() implies (#[trigger] head[i]).0
            == head[i].1.name by {
            assert(head[i] == v[i]);
        }
        lemma_ordered_under_names(head);
        let o = ordered(head);
        table::lemma_place(o, v.last().0);
        let p = table::place(o, v.last().0) as int;
        assert(v.last() == v[v.len() - 1]);
        assert forall|i: int| 0 <= i < ordered(v).len() implies (#[trigger] ordered(v)[i]).0
            == ordered(v)[i].1.name by {
            if i < p {
                assert(ordered(v)[i] == o[i]);
            } else if i > p {
                assert(ordered(v)[i] == o[i - 1]);
            }
        }
    }
}

fn collect_level(commands: &Vec<(String, CommandEntry)>, prefix: &Vec<String>) -> (r: Vec<
    (String, ToolEntry),
>)
    ensures
        tool_models(r@) == level_tools(commands@, texts(prefix@)),
        under_names(tool_models(r@)),
    decreases *commands,
{
    let ghost base = texts(prefix@);
    let mut out: Vec<(String, ToolEntry)> = Vec::new();
    let mut i: usize = 0;
    assert(tool_models(out@) =~= level_tools(commands@.take(0), base));
    while i < commands.len()
        invariant
            i <= commands@.len(),
            base == texts(prefix@),
            tool_models(out@) == level_tools(commands@.take(i as int), base),
            under_names(tool_models(out@)),
        decreases commands.len() - i,
    {
        let ghost was = tool_models(out@);
        assert(commands@.take(i + 1).drop_last() =~= commands@.take(i as int));
        assert(commands@.take(i + 1).last() == commands@[i as int]);
        proof {
            reveal_with_fuel(level_tools, 2);
            reveal_with_fuel(entry_tools, 2);
        }
        let path = crate::cli::walk::longer_path(prefix, &commands[i].0);
        let entry = &commands[i].1;
        if entry.is_group {
            assert(decreases_to!(*commands => commands@[i as int].1.commands));
            let level = collect_level(&entry.commands, &path);
            let ghost listed = keyed(level@);
            let ghost models = tool_models(level@);
            let mut inner = table::sort(level);
            proof {
                table::lemma_ordered_mapped(listed, |t: ToolEntry| t@);
                lemma_ordered_under_names(models);
            }
            let ghost more = tool_models(inner@);
            out.append(&mut inner);
            assert(tool_models(out@) =~= was + more);
        } else {
            let name = join_texts(&path, "_");
            let tool = ToolEntry {
                name: name.clone(),
                description: copy_opt(&entry.description),
                input_schema: build_tool_schema(&entry.args_fields, &entry.options_fields),
                output_schema: copy_opt_value(&entry.output_schema),
            };
            let ghost model = tool@;
            out.push((name, tool));
            assert(tool_models(out@) =~= was + seq![(model.name, model)]);
        }
        i += 1;
    }
    assert(commands@.take(commands@.len() as int) =~= commands@);
    out
}

/// Recursively collects leaf commands as MCP tool entries.
///
/// Groups are traversed but not emitted as tools — only leaf commands become
/// tools. Tool names use underscore-joined path segments (e.g. `deploy_app`).
pub fn collect_tools(commands: &Vec<(String, CommandEntry)>, prefix: &Vec<String>) -> (r: Vec<
    ToolEntry,
>)
    ensures
        named_tools(r@) == ordered(level_tools(commands@, texts(prefix@))),
{
    let level = collect_level(commands, prefix);
    let ghost listed = keyed(level@);
    let ghost models = tool_models(level@);
    let sorted = table::sort(level);
    proof {
        table::lemma_ordered_mapped(listed, |t: ToolEntry| t@);
        lemma_ordered_under_names(models);
    }
    let ghost done = sorted@;
    let out = table::into_values(sorted);
    assert(named_tools(out@) =~= tool_models(done)) by {
        assert forall|i: int| 0 <= i < out@.len() implies named_tools(out@)[i] == tool_models(
            done,
        )[i] by {
            assert(tool_models(done)[i].0 == tool_models(done)[i].1.name);
        }
    }
    out
}

// ---------------------------------------------------------------------------
// Laws
// ---------------------------------------------------------------------------

/// Tools are listed in the order of their names, none is lost and none is added.
pub proof fn law_tools_are_in_order(commands: Seq<(String, CommandEntry)>, prefix: Seq<Seq<char>>)
    ensures
        table::in_order(ordered(level_tools(commands, prefix))),
        ordered(level_tools(commands, prefix)).to_multiset() == level_tools(
            commands,
            prefix,
        ).to_multiset(),
{
    table::lemma_ordered(level_tools(commands, prefix));
}

/// A field is required in the schema exactly where it must be given.
pub proof fn law_required_fields_are_named(fields: Seq<Field>, name: Seq<char>)
    ensures
        required_names(fields).contains(name) <==> exists|i: int|
            0 <= i < fields.len() && (#[trigger] fields[i]).required && fields[i].name == name,
    decreases fields.len(),
{
    if fields.len() > 0 {
        let head = fields.drop_last();
        law_required_fields_are_named(head, name);
        let before = required_names(head);
        let all = required_names(fields);
        assert(fields[fields.len() - 1] == fields.last());
        if before.contains(name) {
            let i = choose|i: int|
                0 <= i < head.len() && (#[trigger] head[i]).required && head[i].name == name;
            assert(fields[i] == head[i]);
            let k = choose|k: int| 0 <= k < before.len() && before[k] == name;
            assert(all[k] == name);
        }
        if fields.last().required && fields.last().name == name {
            assert(all[all.len() - 1] == name);
        }
        if all.contains(name) && !before.contains(name) {
            let k = choose|k: int| 0 <= k < all.len() && all[k] == name;
            if k < before.len() {
                assert(before[k] == name);
            }
        }
        if exists|i: int|
            0 <= i < fields.len() && (#[trigger] fields[i]).required && fields[i].name == name {
            let i = choose|i: int|
                0 <= i < fields.len() && (#[trigger] fields[i]).required && fields[i].name
                    == name;
            if i < head.len() {
                assert(head[i] == fields[i]);
            }
        }
    }
}

/// The keys of a schema differ.
proof fn lemma_schema_keys()
    ensures
        "type"@ != "properties"@,
        "type"@ != "required"@,
        "type"@ != "description"@,
        "type"@ != "default"@,
        "properties"@ != "required"@,
        "properties"@ != "description"@,
        "properties"@ != "default"@,
        "required"@ != "description"@,
        "required"@ != "default"@,
        "description"@ != "default"@,
{
    reveal_strlit("type");
    reveal_strlit("properties");
    reveal_strlit("required");
    reveal_strlit("description");
    reveal_strlit("default");
    assert("type"@.len() == 4);
    assert("properties"@.len() == 10);
    assert("required"@.len() == 8);
    assert("description"@.len() == 11);
    assert("default"@.len() == 7);
}

/// In the schema of a tool's input, every field stands among the properties under its
/// name, with the JSON type of its own type, its description and its default where it
/// has them. Among fields of one name the last counts.
pub proof fn law_fields_are_described(fields: Seq<Field>, i: int)
    requires
        0 <= i < fields.len(),
        forall|j: int| i < j < fields.len() ==> (#[trigger] fields[j]).name != fields[i].name,
    ensures
        ({
            let schema = input_schema(fields);
            let f = fields[i];
            &&& field(schema, "type"@) == Some(Json::String("object"@))
            &&& field(schema, "properties"@) matches Some(properties)
            &&& field(properties, f.name) matches Some(property)
            &&& field(property, "type"@) == Some(
                Json::String(
                    match f.kind {
                        Kind::Boolean => "boolean"@,
                        Kind::Number => "number"@,
                        Kind::Count => "number"@,
                        Kind::Array(_) => "array"@,
                        Kind::String => "string"@,
                        Kind::Enum(_) => "string"@,
                        Kind::Value => "string"@,
                    },
                ),
            )
            &&& field(property, "description"@) == (match f.description {
                Some(text) => Some(Json::String(text)),
                None => None,
            })
            &&& field(property, "default"@) == f.default
        }),
{
    broadcast use {lemma_collected_found, lemma_nothing_collected};

    lemma_schema_keys();
    let pairs = fields.map_values(|f: Field| (f.name, property(f)));
    law_last_entry_is_held(pairs, fields[i].name);
    assert(pairs[i] == (fields[i].name, property(fields[i])));
    assert forall|j: int| i < j < pairs.len() implies (#[trigger] pairs[j]).0
        != fields[i].name by {
        assert(fields[j].name != fields[i].name);
    }
}

/// The properties of a schema are those of fields and no others.
pub proof fn law_only_fields_are_described(fields: Seq<Field>, name: Seq<char>)
    requires
        forall|i: int| 0 <= i < fields.len() ==> (#[trigger] fields[i]).name != name,
    ensures
        field(input_schema(fields), "properties"@) matches Some(properties) && field(
            properties,
            name,
        ) is None,
{
    broadcast use {lemma_collected_found, lemma_nothing_collected};

    lemma_schema_keys();
    let pairs = fields.map_values(|f: Field| (f.name, property(f)));
    law_last_entry_is_held(pairs, name);
    assert forall|i: int| 0 <= i < pairs.len() implies (#[trigger] pairs[i]).0 != name by {
        assert(fields[i].name != name);
    }
}

/// The schema lists the names of the fields that must be given, one for each and in
/// their order, and has no list where there are none.
pub proof fn law_required_fields_are_listed(fields: Seq<Field>, name: Seq<char>)
    ensures
        (forall|i: int| 0 <= i < fields.len() ==> !(#[trigger] fields[i]).required) ==> field(
            input_schema(fields),
            "required"@,
        ) is None,
        (exists|i: int| 0 <= i < fields.len() && (#[trigger] fields[i]).required) ==> field(
            input_schema(fields),
            "required"@,
        ) is Some && field(input_schema(fields), "required"@)->0 is Array && (field(
            input_schema(fields),
            "required"@,
        )->0->Array_0.contains(Json::String(name)) <==> exists|i: int|
            0 <= i < fields.len() && (#[trigger] fields[i]).required && fields[i].name == name),
{
    broadcast use {lemma_collected_found, lemma_nothing_collected};

    lemma_schema_keys();
    let required = required_names(fields);
    law_required_fields_are_named(fields, name);
    if exists|i: int| 0 <= i < fields.len() && (#[trigger] fields[i]).required {
        let i = choose|i: int| 0 <= i < fields.len() && (#[trigger] fields[i]).required;
        law_required_fields_are_named(fields, fields[i].name);
        assert(required.contains(fields[i].name));
        assert(required.len() > 0);
        let names = required.map_values(|s: Seq<char>| Json::String(s));
        if required.contains(name) {
            let k = choose|k: int| 0 <= k < required.len() && required[k] == name;
            assert(names[k] == Json::String(name));
        }
        if names.contains(Json::String(name)) {
            let k = choose|k: int| 0 <= k < names.len() && names[k] == Json::String(name);
            assert(required[k] == name);
        }
    } else if required.len() > 0 {
        law_required_fields_are_named(fields, required[0]);
        assert(required.contains(required[0]));
    }
}

/// The tools of a level are those of its entries: a command is one under its path, with
/// its description and the schema of all its fields, and a group has those of its
/// commands.
pub proof fn law_commands_become_tools(
    a: Seq<(String, CommandEntry)>,
    b: Seq<(String, CommandEntry)>,
    one: (String, CommandEntry),
    prefix: Seq<Seq<char>>,
)
    ensures
        level_tools(a + b, prefix) == level_tools(a, prefix) + level_tools(b, prefix),
        !one.1.is_group ==> level_tools(seq![one], prefix).len() == 1 && level_tools(seq![one], prefix)[0].0 == join(prefix.push(one.0@), "_"@) && level_tools(seq![one], prefix)[0].1.name
            == join(prefix.push(one.0@), "_"@) && level_tools(seq![one], prefix)[0].1.description == opt_text(
            one.1.description,
        ) && level_tools(seq![one], prefix)[0].1.input_schema == input_schema(
            fields(one.1.args_fields@) + fields(one.1.options_fields@),
        ) && level_tools(seq![one], prefix)[0].1.output_schema == opt_value(one.1.output_schema),
        one.1.is_group ==> level_tools(seq![one], prefix).to_multiset() == level_tools(
            one.1.commands@,
            prefix.push(one.0@),
        ).to_multiset(),
    decreases b.len(),
{
    reveal_with_fuel(level_tools, 2);
    assert(seq![one].drop_last() =~= Seq::empty());
    assert(level_tools(seq![one].drop_last(), prefix) =~= Seq::empty());
    assert(level_tools(seq![one], prefix) =~= entry_tools(one.1, prefix.push(one.0@)));
    table::lemma_ordered(level_tools(one.1.commands@, prefix.push(one.0@)));
    if b.len() == 0 {
        assert(a + b =~= a);
        assert(level_tools(a, prefix) + level_tools(b, prefix) =~= level_tools(a, prefix));
    } else {
        law_commands_become_tools(a, b.drop_last(), one, prefix);
        assert((a + b).drop_last() =~= a + b.drop_last());
        assert((a + b).last() == b.last());
        assert(level_tools(a + b, prefix) =~= level_tools(a, prefix) + level_tools(b, prefix));
    }
}


} // verus!
