//! The skills of a package, as they are read.

use vstd::prelude::*;
use serde_yaml_ng::Value as Yaml;
use crate::agent_plugin::loader::{
    canonical_directory, canonical_file, contained_directory, contained_file, error, failed,
    findings, push_diagnostic, warned, warning, AgentPluginDiagnostic, Finding, Located,
};
use crate::agent_plugin::names::{is_skill_name, skill_name};
use crate::table;
use crate::table::{inserted, keyed, lookup, mapped, ordered, text_table};
use crate::text::{
    cat, cat3, chars_of, decimal, decimal_text, find, find_text, lemma_find_from, opt_text, same,
    strip_prefix, text_of, trim_leading, trim_start_char,
};
use crate::agent_plugin::paths::within;

verus! {

/// A field of the frontmatter of a skill.
#[derive(Debug, Clone)]
pub enum YamlField {
    /// A text.
    Text(String),
    /// A mapping: its keys and values, each as far as it is a text.
    Texts(Vec<(Option<String>, Option<String>)>),
    /// Anything else.
    Other,
}

/// What a [`YamlField`] means.
pub enum FieldModel {
    /// A text.
    Text(Seq<char>),
    /// A mapping.
    Texts(Seq<(Option<Seq<char>>, Option<Seq<char>>)>),
    /// Anything else.
    Other,
}

impl View for YamlField {
    type V = FieldModel;

    open spec fn view(&self) -> FieldModel {
        match *self {
            YamlField::Text(text) => FieldModel::Text(text@),
            YamlField::Texts(pairs) => FieldModel::Texts(
                pairs@.map_values(
                    |p: (Option<String>, Option<String>)| (opt_text(p.0), opt_text(p.1)),
                ),
            ),
            YamlField::Other => FieldModel::Other,
        }
    }
}

/// What the pairs of a mapping mean.
pub open spec fn pairs_view(v: Seq<(Option<String>, YamlField)>) -> Seq<
    (Option<Seq<char>>, FieldModel),
> {
    v.map_values(|p: (Option<String>, YamlField)| (opt_text(p.0), p.1@))
}

/// What a read frontmatter means: the pairs of a mapping, nothing where it is no
/// mapping, or the text of an error.
pub open spec fn fields_result(
    r: Result<Option<Vec<(Option<String>, YamlField)>>, String>,
) -> Result<Option<Seq<(Option<Seq<char>>, FieldModel)>>, Seq<char>> {
    match r {
        Ok(Some(pairs)) => Ok(Some(pairs_view(pairs@))),
        Ok(None) => Ok(None),
        Err(message) => Err(message@),
    }
}

/// What a YAML document holds: the pairs of a mapping, nothing where it is no
/// mapping, or the text of the error that says why it is no document.
pub uninterp spec fn yaml_fields(text: Seq<char>) -> Result<
    Option<Seq<(Option<Seq<char>>, FieldModel)>>,
    Seq<char>,
>;

/// `serde_yaml_ng::from_str` to a YAML value, of which texts, and mappings of them,
/// are kept. Only that the result depends on the text alone is claimed.
#[verifier::external_body]
fn parse_yaml(text: &str) -> (r: Result<Option<Vec<(Option<String>, YamlField)>>, String>)
    ensures
        fields_result(r) == yaml_fields(text@),
{
    let value = serde_yaml_ng::from_str::<Yaml>(text).map_err(|error| error.to_string())?;
    let Yaml::Mapping(map) = value else { return Ok(None) };
    let text = |value| match value { Yaml::String(text) => Some(text), _ => None };
    Ok(Some(map.into_iter().map(|(key, value)| (text(key), match value {
        Yaml::String(text) => YamlField::Text(text),
        Yaml::Mapping(inner) => YamlField::Texts(
            inner.into_iter().map(|(key, value)| (text(key), text(value))).collect(),
        ),
        _ => YamlField::Other,
    })).collect()))
}

/// Loaded Agent Skill prompt artifact.
#[derive(Debug, Clone)]
pub struct LoadedAgentPluginSkill {
    /// Skill directory name and frontmatter name.
    pub name: String,
    /// Skill description from frontmatter.
    pub description: String,
    /// Optional skill license string.
    pub license: Option<String>,
    /// Optional skill compatibility note.
    pub compatibility: Option<String>,
    /// Optional experimental allowed-tools selector string.
    pub allowed_tools: Option<String>,
    /// String-valued Agent Skill metadata map.
    pub metadata: Vec<(String, String)>,
    /// Markdown body after frontmatter.
    pub body: String,
    /// Filesystem-resolved `SKILL.md` path.
    pub path: String,
    /// Filesystem-resolved skill root directory.
    pub root: String,
}

/// What a loaded skill means.
pub struct Skill {
    /// Name.
    pub name: Seq<char>,
    /// Description.
    pub description: Seq<char>,
    /// License.
    pub license: Option<Seq<char>>,
    /// Compatibility note.
    pub compatibility: Option<Seq<char>>,
    /// Allowed tools.
    pub allowed_tools: Option<Seq<char>>,
    /// Metadata.
    pub metadata: Seq<(Seq<char>, Seq<char>)>,
    /// Body.
    pub body: Seq<char>,
    /// Path.
    pub path: Seq<char>,
    /// Root.
    pub root: Seq<char>,
}

impl View for LoadedAgentPluginSkill {
    type V = Skill;

    open spec fn view(&self) -> Skill {
        Skill {
            name: self.name@,
            description: self.description@,
            license: opt_text(self.license),
            compatibility: opt_text(self.compatibility),
            allowed_tools: opt_text(self.allowed_tools),
            metadata: text_table(self.metadata@),
            body: self.body@,
            path: self.path@,
            root: self.root@,
        }
    }
}

/// The frontmatter and the body of a skill's file.
pub open spec fn frontmatter_parts(text: Seq<char>) -> Option<(Seq<char>, Seq<char>)> {
    if "---\n"@.is_prefix_of(text) {
        let rest = text.skip("---\n"@.len() as int);
        match find(rest, "\n---"@) {
            Some(end) => Some(
                (
                    rest.take(end as int),
                    trim_start_char(rest.skip(end as int + "\n---"@.len()), '\n'),
                ),
            ),
            None => None,
        }
    } else {
        None
    }
}

/// Parts the frontmatter of a skill's file from its body.
pub fn split_skill_frontmatter(text: &str) -> (r: Option<(String, String)>)
    ensures
        frontmatter_parts(text@) == (match r {
            Some((front, body)) => Some((front@, body@)),
            None => None,
        }),
{
    let rest = match strip_prefix(text, "---\n") {
        Some(rest) => rest,
        None => {
            return None;
        },
    };
    let x = chars_of(rest.as_str());
    let mark = chars_of("\n---");
    proof {
        reveal_strlit("\n---");
        lemma_find_from(x@, mark@, 0);
    }
    match find_text(&x, &mark, 0) {
        Some(end) => {
            let front = text_of(&x, 0, end);
            assert(end + 4 <= x.len());
            let behind = text_of(&x, end + 4, x.len());
            assert(front@ =~= x@.take(end as int));
            assert(behind@ =~= x@.skip(end as int + "\n---"@.len()));
            Some((front, trim_leading(behind.as_str(), '\n')))
        },
        None => None,
    }
}

/// The path of a skill's file in a package, and of a part of it.
pub open spec fn skill_place(dir: Seq<char>, part: Seq<char>) -> Seq<char> {
    "skills/"@ + dir + "/SKILL.md"@ + part
}

fn place_in_skill(dir: &str, part: &str) -> (r: String)
    ensures
        r@ == skill_place(dir@, part@),
{
    let mut out = cat3("skills/", dir, "/SKILL.md");
    out.append(part);
    out
}

fn place_of_field(dir: &str, key: &str) -> (r: String)
    ensures
        r@ == skill_place(dir@, "/"@ + key@),
{
    place_in_skill(dir, cat("/", key).as_str())
}

fn place_of_skill(dir: &str) -> (r: String)
    ensures
        r@ == skill_place(dir@, Seq::empty()),
{
    let out = cat3("skills/", dir, "/SKILL.md");
    assert(out@ =~= skill_place(dir@, Seq::empty()));
    out
}

/// The fields of a mapping by their keys, and nothing where a key is no text.
pub open spec fn keyed_fields(pairs: Seq<(Option<Seq<char>>, FieldModel)>) -> Option<
    Seq<(Seq<char>, FieldModel)>,
>
    decreases pairs.len(),
{
    if pairs.len() == 0 {
        Some(Seq::empty())
    } else {
        match (keyed_fields(pairs.drop_last()), pairs.last().0) {
            (Some(before), Some(key)) => Some(inserted(before, key, pairs.last().1)),
            _ => None,
        }
    }
}

/// Whether a key is one of a skill's frontmatter.
pub open spec fn skill_key(key: Seq<char>) -> bool {
    key == "name"@ || key == "description"@ || key == "license"@ || key == "compatibility"@ || key
        == "metadata"@ || key == "allowed-tools"@
}

/// The first key that no frontmatter has, from one of them on.
pub open spec fn strange_key(fields: Seq<(Seq<char>, FieldModel)>, from: nat) -> Option<Seq<char>>
    decreases fields.len() - from,
{
    if from >= fields.len() {
        None
    } else if skill_key(fields[from as int].0) {
        strange_key(fields, from + 1)
    } else {
        Some(fields[from as int].0)
    }
}

/// The text of a field.
pub open spec fn field_text(fields: Seq<(Seq<char>, FieldModel)>, key: Seq<char>) -> Option<
    Seq<char>,
> {
    match lookup(fields, key) {
        Some(FieldModel::Text(text)) => Some(text),
        _ => None,
    }
}

/// What is wrong with a field that must hold a text that is not empty.
pub open spec fn needed_fault(
    fields: Seq<(Seq<char>, FieldModel)>,
    key: Seq<char>,
    dir: Seq<char>,
) -> Option<Finding> {
    match lookup(fields, key) {
        Some(FieldModel::Text(text)) if text.len() > 0 => None,
        _ => Some(
            warned(
                "skill_field_invalid"@,
                skill_place(dir, "/"@ + key),
                key + " must be a non-empty string"@,
            ),
        ),
    }
}

/// What is wrong with a field that holds a text where it is present.
pub open spec fn possible_fault(
    fields: Seq<(Seq<char>, FieldModel)>,
    key: Seq<char>,
    dir: Seq<char>,
) -> Option<Finding> {
    match lookup(fields, key) {
        None => None,
        Some(FieldModel::Text(_)) => None,
        Some(_) => Some(
            warned(
                "skill_field_invalid"@,
                skill_place(dir, "/"@ + key),
                key + " must be a string"@,
            ),
        ),
    }
}

/// The metadata that pairs hold, or what is wrong with the first pair that is not
/// of two texts.
pub open spec fn pairs_metadata(
    pairs: Seq<(Option<Seq<char>>, Option<Seq<char>>)>,
    dir: Seq<char>,
) -> Result<Seq<(Seq<char>, Seq<char>)>, Finding>
    decreases pairs.len(),
{
    if pairs.len() == 0 {
        Ok(Seq::empty())
    } else {
        match pairs_metadata(pairs.drop_last(), dir) {
            Err(fault) => Err(fault),
            Ok(before) => match pairs.last() {
                (None, _) => Err(
                    warned(
                        "skill_metadata_invalid"@,
                        skill_place(dir, "/"@ + "metadata"@),
                        "metadata keys must be strings"@,
                    ),
                ),
                (Some(key), None) => Err(
                    warned(
                        "skill_metadata_invalid"@,
                        skill_place(dir, "/"@ + ("metadata/"@ + key)),
                        "metadata values must be strings"@,
                    ),
                ),
                (Some(key), Some(value)) => Ok(inserted(before, key, value)),
            },
        }
    }
}

/// The metadata of a skill, or what is wrong with it.
pub open spec fn metadata_of(fields: Seq<(Seq<char>, FieldModel)>, dir: Seq<char>) -> Result<
    Seq<(Seq<char>, Seq<char>)>,
    Finding,
> {
    match lookup(fields, "metadata"@) {
        None => Ok(Seq::empty()),
        Some(FieldModel::Texts(pairs)) => pairs_metadata(pairs, dir),
        Some(_) => Err(
            warned(
                "skill_metadata_invalid"@,
                skill_place(dir, "/"@ + "metadata"@),
                "metadata must be a string map"@,
            ),
        ),
    }
}

/// What is wrong with the fields of a skill's frontmatter.
pub open spec fn fields_fault(fields: Seq<(Seq<char>, FieldModel)>, dir: Seq<char>) -> Option<
    Finding,
> {
    let name = field_text(fields, "name"@)->Some_0;
    let description = field_text(fields, "description"@)->Some_0;
    if strange_key(fields, 0) is Some {
        Some(
            warned(
                "skill_frontmatter_unknown_field"@,
                skill_place(dir, "/"@ + strange_key(fields, 0)->Some_0),
                "unknown Agent Skills frontmatter field"@,
            ),
        )
    } else if needed_fault(fields, "name"@, dir) is Some {
        needed_fault(fields, "name"@, dir)
    } else if name != dir || !skill_name(name) {
        Some(
            warned(
                "skill_name_invalid"@,
                skill_place(dir, "/"@ + "name"@),
                "skill name must match its directory and Agent Skills name rules"@,
            ),
        )
    } else if needed_fault(fields, "description"@, dir) is Some {
        needed_fault(fields, "description"@, dir)
    } else if description.len() > 1024 {
        Some(
            warned(
                "skill_description_invalid"@,
                skill_place(dir, "/"@ + "description"@),
                "description length "@ + decimal(description.len())
                    + " is outside 1-1024 characters"@,
            ),
        )
    } else if possible_fault(fields, "license"@, dir) is Some {
        possible_fault(fields, "license"@, dir)
    } else if possible_fault(fields, "compatibility"@, dir) is Some {
        possible_fault(fields, "compatibility"@, dir)
    } else if field_text(fields, "compatibility"@) is Some && field_text(
        fields,
        "compatibility"@,
    )->Some_0.len() > 500 {
        Some(
            warned(
                "skill_compatibility_invalid"@,
                skill_place(dir, "/"@ + "compatibility"@),
                "compatibility must be at most 500 characters"@,
            ),
        )
    } else if possible_fault(fields, "allowed-tools"@, dir) is Some {
        possible_fault(fields, "allowed-tools"@, dir)
    } else {
        match metadata_of(fields, dir) {
            Ok(_) => None,
            Err(fault) => Some(fault),
        }
    }
}

/// The skill that a frontmatter and a body make, or what is wrong with it.
pub open spec fn skill_of(
    dir: Seq<char>,
    root: Seq<char>,
    path: Seq<char>,
    read: Result<Option<Seq<(Option<Seq<char>>, FieldModel)>>, Seq<char>>,
    body: Seq<char>,
) -> Result<Skill, Finding> {
    match read {
        Err(message) => Err(
            warned("skill_frontmatter_invalid"@, skill_place(dir, Seq::empty()), message),
        ),
        Ok(None) => Err(
            warned(
                "skill_frontmatter_invalid"@,
                skill_place(dir, Seq::empty()),
                "frontmatter must be a mapping"@,
            ),
        ),
        Ok(Some(pairs)) => match keyed_fields(pairs) {
            None => Err(
                warned(
                    "skill_frontmatter_invalid"@,
                    skill_place(dir, Seq::empty()),
                    "frontmatter keys must be strings"@,
                ),
            ),
            Some(fields) => match fields_fault(fields, dir) {
                Some(fault) => Err(fault),
                None => Ok(
                    Skill {
                        name: field_text(fields, "name"@)->Some_0,
                        description: field_text(fields, "description"@)->Some_0,
                        license: field_text(fields, "license"@),
                        compatibility: field_text(fields, "compatibility"@),
                        allowed_tools: field_text(fields, "allowed-tools"@),
                        metadata: metadata_of(fields, dir)->Ok_0,
                        body,
                        path,
                        root,
                    },
                ),
            },
        },
    }
}

/// The skill that a file holds, or what is wrong with it.
pub open spec fn skill_in(
    dir: Seq<char>,
    root: Seq<char>,
    path: Seq<char>,
    text: Seq<char>,
) -> Result<Skill, Finding> {
    match frontmatter_parts(text) {
        None => Err(
            warned(
                "skill_frontmatter_missing"@,
                skill_place(dir, Seq::empty()),
                "skill must start with YAML frontmatter"@,
            ),
        ),
        Some((front, body)) => skill_of(dir, root, path, yaml_fields(front), body),
    }
}

/// What an attempt to read a skill means.
pub open spec fn skill_result(r: Result<LoadedAgentPluginSkill, AgentPluginDiagnostic>) -> Result<
    Skill,
    Finding,
> {
    match r {
        Ok(skill) => Ok(skill@),
        Err(d) => Err(d@),
    }
}

/// What the fields of a frontmatter mean, by their keys.
pub open spec fn fields_view(v: Seq<(String, YamlField)>) -> Seq<(Seq<char>, FieldModel)> {
    mapped(keyed(v), |f: YamlField| f@)
}

fn key_fields(pairs: Vec<(Option<String>, YamlField)>) -> (r: Option<Vec<(String, YamlField)>>)
    ensures
        keyed_fields(pairs_view(pairs@)) == (match r {
            Some(fields) => Some(fields_view(fields@)),
            None => None,
        }),
{
    let ghost all = pairs_view(pairs@);
    let mut rest = pairs;
    let mut out: Vec<(String, YamlField)> = Vec::new();
    let n: usize = rest.len();
    let mut i: usize = 0;
    let mut sound = true;
    assert(fields_view(out@) =~= Seq::empty());
    assert(all.take(0) =~= Seq::empty());
    assert(all.skip(0) =~= all);
    while i < n
        invariant
            i <= n,
            n == all.len(),
            pairs_view(rest@) == all.skip(i as int),
            keyed_fields(all.take(i as int)) == (if sound {
                Some(fields_view(out@))
            } else {
                None
            }),
        decreases n - i,
    {
        assert(all.take(i + 1).drop_last() =~= all.take(i as int));
        assert(rest@.len() == pairs_view(rest@).len());
        assert(pairs_view(rest@)[0] == all[i as int]);
        assert(all.take(i + 1).last() == all[i as int]);
        let ghost left = pairs_view(rest@);
        let (key, value) = rest.remove(0);
        assert(pairs_view(rest@) =~= left.skip(1));
        assert(all.skip(i as int).skip(1) =~= all.skip(i + 1));
        match key {
            Some(key) => {
                let ghost was = keyed(out@);
                let ghost text = key@;
                let ghost new = value;
                table::insert(&mut out, key, value);
                proof {
                    table::lemma_inserted_mapped(was, text, new, |f: YamlField| f@);
                }
            },
            None => {
                sound = false;
            },
        }
        i += 1;
    }
    assert(all.take(all.len() as int) =~= all);
    if sound {
        Some(out)
    } else {
        None
    }
}

fn is_skill_key(key: &str) -> (r: bool)
    ensures
        r == skill_key(key@),
{
    same(key, "name") || same(key, "description") || same(key, "license") || same(
        key,
        "compatibility",
    ) || same(key, "metadata") || same(key, "allowed-tools")
}

fn find_strange_key(fields: &Vec<(String, YamlField)>) -> (r: Option<String>)
    ensures
        opt_text(r) == strange_key(fields_view(fields@), 0),
{
    let ghost all = fields_view(fields@);
    let mut i: usize = 0;
    while i < fields.len()
        invariant
            i <= fields@.len(),
            all == fields_view(fields@),
            strange_key(all, i as nat) == strange_key(all, 0),
        decreases fields.len() - i,
    {
        assert(all[i as int].0 == fields@[i as int].0@);
        if !is_skill_key(fields[i].0.as_str()) {
            return Some(fields[i].0.clone());
        }
        i += 1;
    }
    None
}

fn get_field<'a>(fields: &'a Vec<(String, YamlField)>, key: &str) -> (r: Option<&'a YamlField>)
    ensures
        lookup(fields_view(fields@), key@) == (match r {
            Some(field) => Some(field@),
            None => None,
        }),
{
    proof {
        table::lemma_lookup_mapped(keyed(fields@), key@, |f: YamlField| f@);
    }
    table::get(fields, key)
}

fn yaml_required_string(fields: &Vec<(String, YamlField)>, key: &str, dir: &str) -> (r: Result<
    String,
    AgentPluginDiagnostic,
>)
    ensures
        match r {
            Ok(text) => needed_fault(fields_view(fields@), key@, dir@) is None && field_text(
                fields_view(fields@),
                key@,
            ) == Some(text@) && text@.len() > 0,
            Err(d) => needed_fault(fields_view(fields@), key@, dir@) == Some(d@),
        },
{
    if let Some(YamlField::Text(text)) = get_field(fields, key) {
        if chars_of(text.as_str()).len() > 0 {
            return Ok(text.clone());
        }
    }
    Err(
        warning(
            "skill_field_invalid",
            place_of_field(dir, key),
            cat(key, " must be a non-empty string"),
        ),
    )
}

fn yaml_optional_string(fields: &Vec<(String, YamlField)>, key: &str, dir: &str) -> (r: Result<
    Option<String>,
    AgentPluginDiagnostic,
>)
    ensures
        match r {
            Ok(text) => possible_fault(fields_view(fields@), key@, dir@) is None && field_text(
                fields_view(fields@),
                key@,
            ) == opt_text(text),
            Err(d) => possible_fault(fields_view(fields@), key@, dir@) == Some(d@),
        },
{
    match get_field(fields, key) {
        None => Ok(None),
        Some(YamlField::Text(text)) => Ok(Some(text.clone())),
        Some(_) => Err(
            warning("skill_field_invalid", place_of_field(dir, key), cat(key, " must be a string")),
        ),
    }
}

fn yaml_metadata(fields: &Vec<(String, YamlField)>, dir: &str) -> (r: Result<
    Vec<(String, String)>,
    AgentPluginDiagnostic,
>)
    ensures
        metadata_of(fields_view(fields@), dir@) == (match r {
            Ok(table) => Ok(text_table(table@)),
            Err(d) => Err(d@),
        }),
{
    let mut out: Vec<(String, String)> = Vec::new();
    assert(text_table(out@) =~= Seq::empty());
    let pairs = match get_field(fields, "metadata") {
        None => {
            return Ok(out);
        },
        Some(YamlField::Texts(pairs)) => pairs,
        Some(_) => {
            return Err(
                warning(
                    "skill_metadata_invalid",
                    place_of_field(dir, "metadata"),
                    "metadata must be a string map".to_string(),
                ),
            );
        },
    };
    let ghost all = pairs@.map_values(
        |p: (Option<String>, Option<String>)| (opt_text(p.0), opt_text(p.1)),
    );
    let mut i: usize = 0;
    assert(all.take(0) =~= Seq::empty());
    while i < pairs.len()
        invariant
            i <= pairs@.len(),
            all == pairs@.map_values(
                |p: (Option<String>, Option<String>)| (opt_text(p.0), opt_text(p.1)),
            ),
            lookup(fields_view(fields@), "metadata"@) == Some(FieldModel::Texts(all)),
            pairs_metadata(all.take(i as int), dir@) == Ok::<_, Finding>(text_table(out@)),
        decreases pairs.len() - i,
    {
        assert(all.take(i + 1).drop_last() =~= all.take(i as int));
        assert(all.take(i + 1).last() == (opt_text(pairs@[i as int].0), opt_text(
            pairs@[i as int].1,
        )));
        let key = match &pairs[i].0 {
            Some(key) => key,
            None => {
                proof {
                    lemma_metadata_fails(all, i + 1, dir@);
                }
                return Err(
                    warning(
                        "skill_metadata_invalid",
                        place_of_field(dir, "metadata"),
                        "metadata keys must be strings".to_string(),
                    ),
                );
            },
        };
        let value = match &pairs[i].1 {
            Some(value) => value,
            None => {
                proof {
                    lemma_metadata_fails(all, i + 1, dir@);
                }
                return Err(
                    warning(
                        "skill_metadata_invalid",
                        place_of_field(dir, cat("metadata/", key.as_str()).as_str()),
                        "metadata values must be strings".to_string(),
                    ),
                );
            },
        };
        table::insert_text(&mut out, key.clone(), value.clone());
        i += 1;
    }
    assert(all.take(all.len() as int) =~= all);
    Ok(out)
}

/// What is wrong with the first pairs is wrong with all of them.
proof fn lemma_metadata_fails(
    pairs: Seq<(Option<Seq<char>>, Option<Seq<char>>)>,
    n: int,
    dir: Seq<char>,
)
    requires
        0 <= n <= pairs.len(),
        pairs_metadata(pairs.take(n), dir) is Err,
    ensures
        pairs_metadata(pairs, dir) == pairs_metadata(pairs.take(n), dir),
    decreases pairs.len(),
{
    if n == pairs.len() {
        assert(pairs.take(n) =~= pairs);
    } else {
        assert(pairs.drop_last().take(n) =~= pairs.take(n));
        lemma_metadata_fails(pairs.drop_last(), n, dir);
    }
}

/// Makes a skill of the fields of its frontmatter and of its body.
fn skill_from_keyed(
    dir_name: &str,
    skill_root: &str,
    skill_path: &str,
    fields: &Vec<(String, YamlField)>,
    body: String,
) -> (r: Result<LoadedAgentPluginSkill, AgentPluginDiagnostic>)
    ensures
        match r {
            Ok(skill) => {
                &&& fields_fault(fields_view(fields@), dir_name@) is None
                &&& skill@ == (Skill {
                    name: field_text(fields_view(fields@), "name"@)->Some_0,
                    description: field_text(fields_view(fields@), "description"@)->Some_0,
                    license: field_text(fields_view(fields@), "license"@),
                    compatibility: field_text(fields_view(fields@), "compatibility"@),
                    allowed_tools: field_text(fields_view(fields@), "allowed-tools"@),
                    metadata: metadata_of(fields_view(fields@), dir_name@)->Ok_0,
                    body: body@,
                    path: skill_path@,
                    root: skill_root@,
                })
            },
            Err(d) => fields_fault(fields_view(fields@), dir_name@) == Some(d@),
        },
{
    if let Some(key) = find_strange_key(fields) {
        return Err(
            warning(
                "skill_frontmatter_unknown_field",
                place_of_field(dir_name, key.as_str()),
                "unknown Agent Skills frontmatter field".to_string(),
            ),
        );
    }
    let name = match yaml_required_string(fields, "name", dir_name) {
        Ok(text) => text,
        Err(d) => {
            return Err(d);
        },
    };
    if !same(name.as_str(), dir_name) || !is_skill_name(name.as_str()) {
        return Err(
            warning(
                "skill_name_invalid",
                place_of_field(dir_name, "name"),
                "skill name must match its directory and Agent Skills name rules".to_string(),
            ),
        );
    }
    let description = match yaml_required_string(fields, "description", dir_name) {
        Ok(text) => text,
        Err(d) => {
            return Err(d);
        },
    };
    let len: usize = chars_of(description.as_str()).len();
    if len > 1024 {
        assert(usize::MAX <= u64::MAX);
        return Err(
            warning(
                "skill_description_invalid",
                place_of_field(dir_name, "description"),
                cat3(
                    "description length ",
                    decimal_text(len as u64).as_str(),
                    " is outside 1-1024 characters",
                ),
            ),
        );
    }
    let license = match yaml_optional_string(fields, "license", dir_name) {
        Ok(text) => text,
        Err(d) => {
            return Err(d);
        },
    };
    let compatibility = match yaml_optional_string(fields, "compatibility", dir_name) {
        Ok(text) => text,
        Err(d) => {
            return Err(d);
        },
    };
    if let Some(text) = &compatibility {
        if chars_of(text.as_str()).len() > 500 {
            return Err(
                warning(
                    "skill_compatibility_invalid",
                    place_of_field(dir_name, "compatibility"),
                    "compatibility must be at most 500 characters".to_string(),
                ),
            );
        }
    }
    let allowed_tools = match yaml_optional_string(fields, "allowed-tools", dir_name) {
        Ok(text) => text,
        Err(d) => {
            return Err(d);
        },
    };
    let metadata = match yaml_metadata(fields, dir_name) {
        Ok(table) => table,
        Err(d) => {
            return Err(d);
        },
    };
    Ok(
        LoadedAgentPluginSkill {
            name,
            description,
            license,
            compatibility,
            allowed_tools,
            metadata,
            body,
            path: skill_path.to_string(),
            root: skill_root.to_string(),
        },
    )
}

/// Makes a skill of a frontmatter that has been read and of its body.
pub fn skill_from_fields(
    dir_name: &str,
    skill_root: &str,
    skill_path: &str,
    read: Result<Option<Vec<(Option<String>, YamlField)>>, String>,
    body: String,
) -> (r: Result<LoadedAgentPluginSkill, AgentPluginDiagnostic>)
    ensures
        skill_result(r) == skill_of(
            dir_name@,
            skill_root@,
            skill_path@,
            fields_result(read),
            body@,
        ),
{
    let pairs = match read {
        Err(message) => {
            return Err(
                warning("skill_frontmatter_invalid", place_of_skill(dir_name), message),
            );
        },
        Ok(None) => {
            return Err(
                warning(
                    "skill_frontmatter_invalid",
                    place_of_skill(dir_name),
                    "frontmatter must be a mapping".to_string(),
                ),
            );
        },
        Ok(Some(pairs)) => pairs,
    };
    match key_fields(pairs) {
        Some(fields) => skill_from_keyed(dir_name, skill_root, skill_path, &fields, body),
        None => Err(
            warning(
                "skill_frontmatter_invalid",
                place_of_skill(dir_name),
                "frontmatter keys must be strings".to_string(),
            ),
        ),
    }
}

/// Reads a skill from the text of its file.
pub fn parse_skill(dir_name: &str, skill_root: &str, skill_path: &str, text: &str) -> (r: Result<
    LoadedAgentPluginSkill,
    AgentPluginDiagnostic,
>)
    ensures
        skill_result(r) == skill_in(dir_name@, skill_root@, skill_path@, text@),
{
    match split_skill_frontmatter(text) {
        None => Err(
            warning(
                "skill_frontmatter_missing",
                place_of_skill(dir_name),
                "skill must start with YAML frontmatter".to_string(),
            ),
        ),
        Some((front, body)) => skill_from_fields(
            dir_name,
            skill_root,
            skill_path,
            parse_yaml(front.as_str()),
            body,
        ),
    }
}

/// An entry of the directory of skills.
#[derive(Debug)]
pub struct SkillFolder {
    /// The name of the entry.
    pub name: String,
    /// Whether the entry is a directory or a link.
    pub is_candidate: bool,
    /// What the path of the entry leads to.
    pub root: Located,
    /// What the path of its `SKILL.md` leads to.
    pub file: Located,
    /// The text of that file, or the text of the error.
    pub text: Result<String, String>,
}

/// What was found of the directory of skills.
#[derive(Debug)]
pub enum SkillsFound {
    /// There is none.
    Absent,
    /// Its path leads here, and its entries could not be listed.
    Unlisted(Located, String),
    /// Its path leads here, and these are its entries.
    Listed(Located, Vec<SkillFolder>),
}

/// What comes of an entry: nothing, a skill, or a finding.
pub open spec fn folder_result(root: Seq<char>, folder: SkillFolder) -> Option<
    Result<Skill, Finding>,
> {
    if !folder.is_candidate {
        None
    } else {
        match contained_directory(root, folder.root) {
            None => Some(
                Err(
                    warned(
                        "skill_directory_invalid"@,
                        "skills/"@ + folder.name@,
                        "skill directory escapes plugin root or is not a directory"@,
                    ),
                ),
            ),
            Some(skill_root) => match contained_file(root, folder.file) {
                Err(_) => None,
                Ok(path) => match folder.text {
                    Err(message) => Some(
                        Err(
                            warned(
                                "skill_read_failed"@,
                                skill_place(folder.name@, Seq::empty()),
                                message@,
                            ),
                        ),
                    ),
                    Ok(text) => Some(skill_in(folder.name@, skill_root, path, text@)),
                },
            },
        }
    }
}

/// The skills among the entries, in their order.
pub open spec fn folder_skills(root: Seq<char>, folders: Seq<SkillFolder>) -> Seq<
    (Seq<char>, Skill),
>
    decreases folders.len(),
{
    if folders.len() == 0 {
        Seq::empty()
    } else {
        let before = folder_skills(root, folders.drop_last());
        match folder_result(root, folders.last()) {
            Some(Ok(skill)) => before.push((skill.name, skill)),
            _ => before,
        }
    }
}

/// The findings on the entries, in their order.
pub open spec fn folder_findings(root: Seq<char>, folders: Seq<SkillFolder>) -> Seq<Finding>
    decreases folders.len(),
{
    if folders.len() == 0 {
        Seq::empty()
    } else {
        let before = folder_findings(root, folders.drop_last());
        match folder_result(root, folders.last()) {
            Some(Err(finding)) => before.push(finding),
            _ => before,
        }
    }
}

/// What is wrong with the place of the skills.
pub open spec fn skills_place_fault(root: Seq<char>, located: Located) -> Option<Finding> {
    match located {
        Located::Missing(message) => Some(
            failed("skills_location_invalid"@, "skills"@, message@),
        ),
        _ => if contained_directory(root, located) is Some {
            None
        } else {
            Some(
                failed(
                    "skills_location_invalid"@,
                    "skills"@,
                    "skills location is not a contained directory"@,
                ),
            )
        },
    }
}

/// The skills of a package, in the order of their names.
pub open spec fn loaded_skills(root: Seq<char>, found: SkillsFound) -> Seq<(Seq<char>, Skill)> {
    match found {
        SkillsFound::Listed(located, folders) if skills_place_fault(root, located) is None => ordered(
            folder_skills(root, folders@),
        ),
        _ => Seq::empty(),
    }
}

/// The findings on the skills of a package.
pub open spec fn skills_findings(root: Seq<char>, found: SkillsFound) -> Seq<Finding> {
    match found {
        SkillsFound::Absent => Seq::empty(),
        SkillsFound::Unlisted(located, message) => match skills_place_fault(root, located) {
            Some(fault) => seq![fault],
            None => seq![failed("skills_read_failed"@, "skills"@, message@)],
        },
        SkillsFound::Listed(located, folders) => match skills_place_fault(root, located) {
            Some(fault) => seq![fault],
            None => folder_findings(root, folders@),
        },
    }
}

/// What loaded skills mean, by their names.
pub open spec fn named_skills(v: Seq<LoadedAgentPluginSkill>) -> Seq<(Seq<char>, Skill)> {
    v.map_values(|s: LoadedAgentPluginSkill| (s.name@, s@))
}

fn check_skills_place(root: &str, located: &Located) -> (r: Option<AgentPluginDiagnostic>)
    ensures
        skills_place_fault(root@, *located) == (match r {
            Some(d) => Some(d@),
            None => None,
        }),
{
    if let Located::Missing(message) = located {
        return Some(error("skills_location_invalid", "skills".to_string(), message.clone()));
    }
    if canonical_directory(root, located).is_some() {
        None
    } else {
        Some(
            error(
                "skills_location_invalid",
                "skills".to_string(),
                "skills location is not a contained directory".to_string(),
            ),
        )
    }
}

fn read_folder(root: &str, folder: &SkillFolder) -> (r: Option<
    Result<LoadedAgentPluginSkill, AgentPluginDiagnostic>,
>)
    ensures
        folder_result(root@, *folder) == (match r {
            Some(result) => Some(skill_result(result)),
            None => None,
        }),
{
    if !folder.is_candidate {
        return None;
    }
    let skill_root = match canonical_directory(root, &folder.root) {
        Some(path) => path,
        None => {
            return Some(
                Err(
                    warning(
                        "skill_directory_invalid",
                        cat("skills/", folder.name.as_str()),
                        "skill directory escapes plugin root or is not a directory".to_string(),
                    ),
                ),
            );
        },
    };
    let path = match canonical_file(root, &folder.file) {
        Ok(path) => path,
        Err(_) => {
            return None;
        },
    };
    match &folder.text {
        Err(message) => Some(
            Err(
                warning(
                    "skill_read_failed",
                    place_of_skill(folder.name.as_str()),
                    message.clone(),
                ),
            ),
        ),
        Ok(text) => Some(
            parse_skill(folder.name.as_str(), skill_root.as_str(), path.as_str(), text.as_str()),
        ),
    }
}

spec fn skill_models(v: Seq<(String, LoadedAgentPluginSkill)>) -> Seq<(Seq<char>, Skill)> {
    mapped(keyed(v), |s: LoadedAgentPluginSkill| s@)
}

/// Every skill is listed under its own name.
proof fn lemma_named(root: Seq<char>, folders: Seq<SkillFolder>)
    ensures
        forall|i: int|
            0 <= i < folder_skills(root, folders).len() ==> (#[trigger] folder_skills(
                root,
                folders,
            )[i]).0 == folder_skills(root, folders)[i].1.name,
    decreases folders.len(),
{
    if folders.len() > 0 {
        lemma_named(root, folders.drop_last());
    }
}

fn read_folders(
    root: &str,
    folders: &Vec<SkillFolder>,
    diagnostics: &mut Vec<AgentPluginDiagnostic>,
) -> (r: Vec<(String, LoadedAgentPluginSkill)>)
    ensures
        skill_models(r@) == folder_skills(root@, folders@),
        findings(final(diagnostics)@) == findings(old(diagnostics)@) + folder_findings(
            root@,
            folders@,
        ),
{
    let ghost start = findings(diagnostics@);
    let mut out: Vec<(String, LoadedAgentPluginSkill)> = Vec::new();
    let mut i: usize = 0;
    assert(skill_models(out@) =~= folder_skills(root@, folders@.take(0)));
    assert(findings(diagnostics@) =~= start + folder_findings(root@, folders@.take(0)));
    while i < folders.len()
        invariant
            i <= folders@.len(),
            skill_models(out@) == folder_skills(root@, folders@.take(i as int)),
            findings(diagnostics@) == start + folder_findings(root@, folders@.take(i as int)),
        decreases folders.len() - i,
    {
        assert(folders@.take(i + 1).drop_last() =~= folders@.take(i as int));
        assert(folders@.take(i + 1).last() == folders@[i as int]);
        match read_folder(root, &folders[i]) {
            Some(Ok(skill)) => {
                let ghost was = skill_models(out@);
                let ghost new = skill@;
                out.push((skill.name.clone(), skill));
                assert(skill_models(out@) =~= was.push((new.name, new)));
            },
            Some(Err(d)) => {
                push_diagnostic(diagnostics, d);
            },
            None => {},
        }
        assert(findings(diagnostics@) =~= start + folder_findings(root@, folders@.take(i + 1)));
        i += 1;
    }
    assert(folders@.take(folders@.len() as int) =~= folders@);
    out
}

/// Reads the skills of a package. Findings are added to the diagnostics.
pub fn load_skills(
    root: &str,
    found: &SkillsFound,
    diagnostics: &mut Vec<AgentPluginDiagnostic>,
) -> (r: Vec<LoadedAgentPluginSkill>)
    ensures
        named_skills(r@) == loaded_skills(root@, *found),
        findings(final(diagnostics)@) == findings(old(diagnostics)@) + skills_findings(
            root@,
            *found,
        ),
{
    let ghost start = findings(diagnostics@);
    let mut out: Vec<LoadedAgentPluginSkill> = Vec::new();
    assert(named_skills(out@) =~= Seq::empty());
    match found {
        SkillsFound::Absent => {
            assert(findings(diagnostics@) =~= start + skills_findings(root@, *found));
        },
        SkillsFound::Unlisted(located, message) => {
            match check_skills_place(root, located) {
                Some(d) => {
                    push_diagnostic(diagnostics, d);
                },
                None => {
                    push_diagnostic(
                        diagnostics,
                        error("skills_read_failed", "skills".to_string(), message.clone()),
                    );
                },
            }
            assert(findings(diagnostics@) =~= start + skills_findings(root@, *found));
        },
        SkillsFound::Listed(located, folders) => {
            match check_skills_place(root, located) {
                Some(d) => {
                    push_diagnostic(diagnostics, d);
                    assert(findings(diagnostics@) =~= start + skills_findings(root@, *found));
                },
                None => {
                    let list = read_folders(root, folders, diagnostics);
                    let ghost listed = keyed(list@);
                    let ghost want = ordered(folder_skills(root@, folders@));
                    let mut sorted = table::sort(list);
                    proof {
                        table::lemma_ordered_mapped(listed, |s: LoadedAgentPluginSkill| s@);
                        lemma_named(root@, folders@);
                        table::lemma_ordered(folder_skills(root@, folders@));
                        lemma_named_stay(folder_skills(root@, folders@));
                    }
                    assert(skill_models(sorted@) == want);
                    let n: usize = sorted.len();
                    let mut k: usize = 0;
                    assert(want.skip(0) =~= want);
                    assert(named_skills(out@) =~= want.take(0));
                    while k < n
                        invariant
                            k <= n,
                            n == want.len(),
                            forall|i: int| 0 <= i < want.len() ==> (#[trigger] want[i]).0
                                == want[i].1.name,
                            skill_models(sorted@) == want.skip(k as int),
                            named_skills(out@) == want.take(k as int),
                        decreases n - k,
                    {
                        let ghost left = skill_models(sorted@);
                        let ghost was = named_skills(out@);
                        assert(left.len() == sorted@.len());
                        assert(left[0] == want[k as int]);
                        assert(left[0].1 == sorted@[0].1@);
                        let (_, skill) = sorted.remove(0);
                        assert(skill_models(sorted@) =~= left.skip(1));
                        assert(want.skip(k as int).skip(1) =~= want.skip(k + 1));
                        out.push(skill);
                        assert(named_skills(out@) =~= was.push(want[k as int]));
                        assert(want.take(k + 1) =~= want.take(k as int).push(want[k as int]));
                        k += 1;
                    }
                    assert(want.take(want.len() as int) =~= want);
                },
            }
        },
    }
    out
}

/// Putting skills in order keeps each under its own name.
proof fn lemma_named_stay(v: Seq<(Seq<char>, Skill)>)
    requires
        forall|i: int| 0 <= i < v.len() ==> (#[trigger] v[i]).0 == v[i].1.name,
    ensures
        forall|i: int| 0 <= i < ordered(v).len() ==> (#[trigger] ordered(v)[i]).0 == ordered(
            v,
        )[i].1.name,
    decreases v.len(),
{
    if v.len() > 0 {
        let head = v.drop_last();
        assert forall|i: int| 0 <= i < head.len() implies (#[trigger] head[i]).0
            == head[i].1.name by {
            assert(head[i] == v[i]);
        }
        lemma_named_stay(head);
        let o = ordered(head);
        table::lemma_place(o, v.last().0);
        let p = table::place(o, v.last().0) as int;
        assert(v.last() == v[v.len() - 1]);
        assert forall|i: int| 0 <= i < ordered(v).len() implies (#[trigger] ordered(v)[i]).0
            == ordered(v)[i].1.name by {
            if i < p {
                assert(ordered(v)[i] == o[i]);
            } else if i > p {
                assert(ordered(v)[i] == o[i - 1]);
            }
        }
    }
}

// ---------------------------------------------------------------------------
// Laws
// ---------------------------------------------------------------------------

/// A skill that is loaded has the name of its directory, which is a skill's name,
/// and a description of one to 1024 characters.
pub proof fn law_loaded_skills_are_sound(
    dir: Seq<char>,
    root: Seq<char>,
    path: Seq<char>,
    text: Seq<char>,
)
    requires
        skill_in(dir, root, path, text) is Ok,
    ensures
        ({
            let skill = skill_in(dir, root, path, text)->Ok_0;
            &&& skill.name == dir
            &&& skill_name(dir)
            &&& 1 <= skill.description.len() <= 1024
            &&& skill.path == path
            &&& skill.root == root
        }),
{
}

/// The skills of a package are listed in the order of their names.
pub proof fn law_skills_are_in_order(root: Seq<char>, found: SkillsFound)
    ensures
        table::in_order(loaded_skills(root, found)),
{
    match found {
        SkillsFound::Listed(located, folders) => {
            table::lemma_ordered(folder_skills(root, folders@));
        },
        _ => {},
    }
}

/// An entry that is no skill leaves the others as they are.
pub proof fn law_skills_are_independent(
    root: Seq<char>,
    folders: Seq<SkillFolder>,
    bad: SkillFolder,
)
    requires
        !(folder_result(root, bad) matches Some(Ok(_))),
    ensures
        folder_skills(root, folders.push(bad)) == folder_skills(root, folders),
{
    assert(folders.push(bad).drop_last() =~= folders);
}

/// The frontmatter of a skill is what stands between the opening line and the first
/// closing one, and the body is what follows, without line ends at its start.
pub proof fn law_frontmatter_is_taken_apart(front: Seq<char>, tail: Seq<char>)
    requires
        forall|j: int|
            0 <= j < front.len() ==> !#[trigger] crate::text::occurs_at(
                front + "\n---"@ + tail,
                "\n---"@,
                j,
            ),
    ensures
        frontmatter_parts("---\n"@ + (front + "\n---"@ + tail)) == Some(
            (front, trim_start_char(tail, '\n')),
        ),
{
    let rest = front + "\n---"@ + tail;
    let text = "---\n"@ + rest;
    let n = "---\n"@.len();
    assert(text.subrange(0, n as int) =~= "---\n"@);
    assert(text.skip(n as int) =~= rest);
    let at = front.len();
    assert(rest.subrange(at as int, (at + "\n---"@.len()) as int) =~= "\n---"@);
    assert(crate::text::occurs_at(rest, "\n---"@, at as int));
    crate::text::lemma_find_from(rest, "\n---"@, 0);
    assert(rest.take(at as int) =~= front);
    assert(rest.skip(at as int + "\n---"@.len()) =~= tail);
}

/// A text that does not begin with frontmatter, or does not end it, is no skill.
pub proof fn law_frontmatter_is_needed(
    dir: Seq<char>,
    root: Seq<char>,
    path: Seq<char>,
    text: Seq<char>,
)
    requires
        !"---\n"@.is_prefix_of(text) || !crate::text::occurs(
            text.skip("---\n"@.len() as int),
            "\n---"@,
        ),
    ensures
        skill_in(dir, root, path, text) is Err,
{
    crate::text::lemma_find_from(text.skip("---\n"@.len() as int), "\n---"@, 0);
}

/// Whether a field of a skill is a text, if there is one.
pub open spec fn text_if_any(field: Option<FieldModel>) -> bool {
    field matches Some(f) ==> f is Text
}

/// A skill is loaded exactly where its fields are all known, its name is a valid one and
/// that of its directory, its description is neither empty nor too long, the other texts
/// are texts, and its metadata maps texts to texts.
pub proof fn law_sound_skills_are_loaded(
    dir: Seq<char>,
    root: Seq<char>,
    path: Seq<char>,
    pairs: Seq<(Option<Seq<char>>, FieldModel)>,
    body: Seq<char>,
)
    ensures
        ({
            let read = Ok::<Option<Seq<(Option<Seq<char>>, FieldModel)>>, Seq<char>>(Some(pairs));
            skill_of(dir, root, path, read, body) is Ok <==> {
                &&& forall|i: int| 0 <= i < pairs.len() ==> (#[trigger] pairs[i]).0 is Some
                &&& keyed_fields(pairs) matches Some(fields)
                &&& forall|i: int|
                    0 <= i < fields.len() ==> (#[trigger] fields[i]).0 == "name"@ || fields[i].0
                        == "description"@ || fields[i].0 == "license"@ || fields[i].0
                        == "compatibility"@ || fields[i].0 == "metadata"@ || fields[i].0
                        == "allowed-tools"@
                &&& lookup(fields, "name"@) == Some(FieldModel::Text(dir))
                &&& dir.len() > 0 && skill_name(dir)
                &&& lookup(fields, "description"@) matches Some(FieldModel::Text(text)) && 1
                    <= text.len() <= 1024
                &&& text_if_any(lookup(fields, "license"@))
                &&& text_if_any(lookup(fields, "allowed-tools"@))
                &&& text_if_any(lookup(fields, "compatibility"@))
                &&& lookup(fields, "compatibility"@) matches Some(FieldModel::Text(text))
                    ==> text.len() <= 500
                &&& lookup(fields, "metadata"@) matches Some(field) ==> (
                field matches FieldModel::Texts(inner) && forall|i: int|
                    0 <= i < inner.len() ==> (#[trigger] inner[i]).0 is Some && inner[i].1 is Some)
            }
        }),
{
    lemma_all_keyed(pairs);
    if let Some(fields) = keyed_fields(pairs) {
        lemma_strange_key(fields, 0);
        if let Some(FieldModel::Texts(inner)) = lookup(fields, "metadata"@) {
            lemma_all_pairs(inner, dir);
        }
    }
}

proof fn lemma_all_keyed(pairs: Seq<(Option<Seq<char>>, FieldModel)>)
    ensures
        keyed_fields(pairs) is Some <==> forall|i: int|
            0 <= i < pairs.len() ==> (#[trigger] pairs[i]).0 is Some,
    decreases pairs.len(),
{
    if pairs.len() > 0 {
        let head = pairs.drop_last();
        lemma_all_keyed(head);
        assert(forall|i: int| 0 <= i < head.len() ==> #[trigger] head[i] == pairs[i]);
        if keyed_fields(pairs) is None && keyed_fields(head) is None {
            let i = choose|i: int| 0 <= i < head.len() && !((#[trigger] head[i]).0 is Some);
            assert(pairs[i].0 is None);
        }
        if keyed_fields(pairs) is Some {
            assert forall|i: int| 0 <= i < pairs.len() implies (#[trigger] pairs[i]).0 is Some by {
                if i < head.len() {
                    assert(head[i].0 is Some);
                }
            }
        }
    }
}

proof fn lemma_strange_key(fields: Seq<(Seq<char>, FieldModel)>, from: nat)
    ensures
        strange_key(fields, from) is None <==> forall|i: int|
            from <= i < fields.len() ==> skill_key((#[trigger] fields[i]).0),
    decreases fields.len() - from,
{
    if from < fields.len() && skill_key(fields[from as int].0) {
        lemma_strange_key(fields, from + 1);
    }
}

proof fn lemma_all_pairs(
    pairs: Seq<(Option<Seq<char>>, Option<Seq<char>>)>,
    dir: Seq<char>,
)
    ensures
        pairs_metadata(pairs, dir) is Ok <==> forall|i: int|
            0 <= i < pairs.len() ==> (#[trigger] pairs[i]).0 is Some && pairs[i].1 is Some,
    decreases pairs.len(),
{
    if pairs.len() > 0 {
        let head = pairs.drop_last();
        lemma_all_pairs(head, dir);
        if pairs_metadata(pairs, dir) is Ok {
            assert forall|i: int| 0 <= i < pairs.len() implies (#[trigger] pairs[i]).0 is Some
                && pairs[i].1 is Some by {
                if i < head.len() {
                    assert(head[i] == pairs[i]);
                }
            }
        } else if pairs_metadata(head, dir) is Err {
            let i = choose|i: int|
                0 <= i < head.len() && !((#[trigger] head[i]).0 is Some && head[i].1 is Some);
            assert(pairs[i] == head[i]);
        }
    }
}

/// A field that is written again counts as it was written last.
pub proof fn law_last_field_counts(
    pairs: Seq<(Option<Seq<char>>, FieldModel)>,
    key: Seq<char>,
    value: FieldModel,
    other: Seq<char>,
)
    requires
        keyed_fields(pairs) is Some,
    ensures
        ({
            let fields = keyed_fields(pairs.push((Some(key), value)))->0;
            &&& lookup(fields, key) == Some(value)
            &&& other != key ==> lookup(fields, other) == lookup(keyed_fields(pairs)->0, other)
        }),
{
    assert(pairs.push((Some(key), value)).drop_last() =~= pairs);
    table::lemma_lookup_inserted(keyed_fields(pairs)->0, key, value, key);
    table::lemma_lookup_inserted(keyed_fields(pairs)->0, key, value, other);
}

/// Metadata that is written again counts as it was written last.
pub proof fn law_last_metadata_counts(
    pairs: Seq<(Option<Seq<char>>, Option<Seq<char>>)>,
    dir: Seq<char>,
    key: Seq<char>,
    value: Seq<char>,
    other: Seq<char>,
)
    requires
        pairs_metadata(pairs, dir) is Ok,
    ensures
        ({
            let all = pairs_metadata(pairs.push((Some(key), Some(value))), dir)->Ok_0;
            &&& lookup(all, key) == Some(value)
            &&& other != key ==> lookup(all, other) == lookup(
                pairs_metadata(pairs, dir)->Ok_0,
                other,
            )
        }),
{
    assert(pairs.push((Some(key), Some(value))).drop_last() =~= pairs);
    let before = pairs_metadata(pairs, dir)->Ok_0;
    table::lemma_lookup_inserted(before, key, value, key);
    table::lemma_lookup_inserted(before, key, value, other);
}

/// A loaded skill says what its fields hold.
pub proof fn law_skills_say_what_they_hold(
    dir: Seq<char>,
    root: Seq<char>,
    path: Seq<char>,
    pairs: Seq<(Option<Seq<char>>, FieldModel)>,
    body: Seq<char>,
)
    requires
        skill_of(dir, root, path, Ok(Some(pairs)), body) is Ok,
    ensures
        ({
            let skill = skill_of(dir, root, path, Ok(Some(pairs)), body)->Ok_0;
            let fields = keyed_fields(pairs)->0;
            &&& lookup(fields, "name"@) == Some(FieldModel::Text(skill.name))
            &&& lookup(fields, "description"@) == Some(FieldModel::Text(skill.description))
            &&& skill.license is None ==> lookup(fields, "license"@) is None
            &&& skill.license matches Some(s) ==> lookup(fields, "license"@) == Some(
                FieldModel::Text(s),
            )
            &&& skill.compatibility is None ==> lookup(fields, "compatibility"@) is None
            &&& skill.compatibility matches Some(s) ==> lookup(fields, "compatibility"@) == Some(
                FieldModel::Text(s),
            )
            &&& skill.allowed_tools is None ==> lookup(fields, "allowed-tools"@) is None
            &&& skill.allowed_tools matches Some(s) ==> lookup(fields, "allowed-tools"@) == Some(
                FieldModel::Text(s),
            )
            &&& lookup(fields, "metadata"@) is None ==> skill.metadata.len() == 0
            &&& skill.body == body
            &&& skill.path == path
            &&& skill.root == root
        }),
{
    law_sound_skills_are_loaded(dir, root, path, pairs, body);
}

/// A folder that is no candidate, or holds no skill file inside the plugin, says nothing;
/// one that leads out of the plugin is warned of.
pub proof fn law_folders_hold_skills(root: Seq<char>, folder: SkillFolder)
    ensures
        !folder.is_candidate ==> folder_result(root, folder) is None,
        folder.is_candidate && contained_directory(root, folder.root) is None ==> (folder_result(
            root,
            folder,
        ) matches Some(Err(finding)) && finding.severity is Warning && finding.path == "skills/"@
            + folder.name@),
        folder.is_candidate && contained_directory(root, folder.root) is Some && contained_file(
            root,
            folder.file,
        ) is Err ==> folder_result(root, folder) is None,
        folder.is_candidate ==> (contained_directory(root, folder.root) matches Some(below) ==> (
        contained_file(root, folder.file) matches Ok(path) ==> {
            &&& folder.text is Err ==> (folder_result(root, folder) matches Some(Err(_)))
            &&& folder.text matches Ok(text) ==> folder_result(root, folder) == Some(
                skill_in(folder.name@, below, path, text@),
            )
        })),
{
}

/// The skills of folders are those of each, in order, under their names.
pub proof fn law_every_folder_counts(
    root: Seq<char>,
    a: Seq<SkillFolder>,
    b: Seq<SkillFolder>,
    one: SkillFolder,
)
    ensures
        folder_skills(root, a + b) == folder_skills(root, a) + folder_skills(root, b),
        folder_result(root, one) matches Some(Ok(skill)) ==> folder_skills(root, seq![one]) == seq![(skill.name, skill)],
        !(folder_result(root, one) matches Some(Ok(_))) ==> folder_skills(root, seq![one]).len() == 0,
    decreases b.len(),
{
    reveal_with_fuel(folder_skills, 2);
    assert(seq![one].drop_last() =~= Seq::empty());
    assert(folder_skills(root, seq![one].drop_last()) =~= Seq::empty());
    if b.len() == 0 {
        assert(a + b =~= a);
        assert(folder_skills(root, a) + folder_skills(root, b) =~= folder_skills(root, a));
    } else {
        law_every_folder_counts(root, a, b.drop_last(), one);
        assert((a + b).drop_last() =~= a + b.drop_last());
        assert((a + b).last() == b.last());
        assert(folder_skills(root, a + b) =~= folder_skills(root, a) + folder_skills(root, b));
    }
}

/// The findings on folders are those on each, in order.
pub proof fn law_every_fault_is_found(
    root: Seq<char>,
    a: Seq<SkillFolder>,
    b: Seq<SkillFolder>,
    one: SkillFolder,
)
    ensures
        folder_findings(root, a + b) == folder_findings(root, a) + folder_findings(root, b),
        folder_result(root, one) matches Some(Err(finding)) ==> folder_findings(root, seq![one]) == seq![finding],
        !(folder_result(root, one) matches Some(Err(_))) ==> folder_findings(root, seq![one]).len() == 0,
    decreases b.len(),
{
    reveal_with_fuel(folder_findings, 2);
    assert(seq![one].drop_last() =~= Seq::empty());
    assert(folder_findings(root, seq![one].drop_last()) =~= Seq::empty());
    if b.len() == 0 {
        assert(a + b =~= a);
        assert(folder_findings(root, a) + folder_findings(root, b) =~= folder_findings(root, a));
    } else {
        law_every_fault_is_found(root, a, b.drop_last(), one);
        assert((a + b).drop_last() =~= a + b.drop_last());
        assert((a + b).last() == b.last());
        assert(folder_findings(root, a + b) =~= folder_findings(root, a) + folder_findings(root, b));
    }
}


/// The skills of a plugin are read exactly where their place is a directory inside it;
/// any other place is an error, and a plugin without one has none.
pub proof fn law_skills_are_read_from_inside(
    root: Seq<char>,
    located: Located,
    folders: Vec<SkillFolder>,
)
    ensures
        ({
            let inside = located matches Located::Directory(path) && within(path@, root);
            let found = SkillsFound::Listed(located, folders);
            &&& inside ==> loaded_skills(root, found).to_multiset() == folder_skills(
                root,
                folders@,
            ).to_multiset() && skills_findings(root, found) == folder_findings(root, folders@)
            &&& !inside ==> loaded_skills(root, found).len() == 0 && skills_findings(root, found).len()
                == 1 && skills_findings(root, found)[0].severity is Error && skills_findings(
                root,
                found,
            )[0].path == "skills"@
            &&& loaded_skills(root, SkillsFound::Absent).len() == 0
            &&& skills_findings(root, SkillsFound::Absent).len() == 0
        }),
{
    table::lemma_ordered(folder_skills(root, folders@));
}

} // verus!
