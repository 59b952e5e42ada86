//! The manifest of a package, as it is read.

use vstd::prelude::*;
use crate::agent_plugin::loader::{
    error, failed, findings, push_diagnostic, warned, warning, AgentPluginDiagnostic, Finding,
    AGENT_PLUGIN_SCHEMA,
};
use crate::agent_plugin::names::{is_plugin_name, plugin_name};
use crate::table::lookup;
use crate::text::{cat, decimal, decimal_text, opt_text, same, texts};
use crate::value::{
    entries, get, lemma_array_view, lemma_object_view, tabled, text_at, to_table, values, Json,
    Value,
};

verus! {

/// Parsed plugin author metadata.
#[derive(Debug, Clone)]
pub struct AgentPluginAuthor {
    /// Optional author name.
    pub name: Option<String>,
    /// Optional author email string.
    pub email: Option<String>,
    /// Optional author URL string.
    pub url: Option<String>,
}

/// Parsed root `plugin.json` manifest.
#[derive(Debug, Clone)]
pub struct AgentPluginManifest {
    /// Canonical manifest schema identifier.
    pub schema: String,
    /// Stable Agent Plugins package name.
    pub name: String,
    /// Optional plugin version string.
    pub version: Option<String>,
    /// Optional plugin description.
    pub description: Option<String>,
    /// Optional plugin author metadata.
    pub author: Option<AgentPluginAuthor>,
    /// Optional plugin homepage string.
    pub homepage: Option<String>,
    /// Optional plugin repository string.
    pub repository: Option<String>,
    /// Optional plugin license string.
    pub license: Option<String>,
    /// Optional plugin search keywords.
    pub keywords: Vec<String>,
}

/// What an author means.
pub struct Author {
    /// Name.
    pub name: Option<Seq<char>>,
    /// Email.
    pub email: Option<Seq<char>>,
    /// URL.
    pub url: Option<Seq<char>>,
}

/// What a manifest means.
pub struct Manifest {
    /// Schema.
    pub schema: Seq<char>,
    /// Name.
    pub name: Seq<char>,
    /// Version.
    pub version: Option<Seq<char>>,
    /// Description.
    pub description: Option<Seq<char>>,
    /// Author.
    pub author: Option<Author>,
    /// Homepage.
    pub homepage: Option<Seq<char>>,
    /// Repository.
    pub repository: Option<Seq<char>>,
    /// License.
    pub license: Option<Seq<char>>,
    /// Keywords.
    pub keywords: Seq<Seq<char>>,
}

impl View for AgentPluginAuthor {
    type V = Author;

    open spec fn view(&self) -> Author {
        Author {
            name: opt_text(self.name),
            email: opt_text(self.email),
            url: opt_text(self.url),
        }
    }
}

impl View for AgentPluginManifest {
    type V = Manifest;

    open spec fn view(&self) -> Manifest {
        Manifest {
            schema: self.schema@,
            name: self.name@,
            version: opt_text(self.version),
            description: opt_text(self.description),
            author: match self.author {
                Some(author) => Some(author@),
                None => None,
            },
            homepage: opt_text(self.homepage),
            repository: opt_text(self.repository),
            license: opt_text(self.license),
            keywords: texts(self.keywords@),
        }
    }
}

/// What is wrong with a field that must hold a text that is not empty.
pub open spec fn required_fault(
    object: Seq<(Seq<char>, Json)>,
    key: Seq<char>,
    path: Seq<char>,
) -> Option<Finding> {
    match lookup(object, key) {
        Some(Json::String(s)) if s.len() > 0 => None,
        _ => Some(
            failed(
                "manifest_required_field_invalid"@,
                path,
                key + " must be a non-empty string"@,
            ),
        ),
    }
}

/// What is wrong with a field that holds a text where it is present.
pub open spec fn optional_fault(
    object: Seq<(Seq<char>, Json)>,
    key: Seq<char>,
    path: Seq<char>,
) -> Option<Finding> {
    match lookup(object, key) {
        Some(Json::String(_)) => None,
        None => None,
        Some(_) => Some(failed("manifest_field_invalid"@, path, key + " must be a string"@)),
    }
}

/// The first of two findings.
pub open spec fn first(a: Option<Finding>, b: Option<Finding>) -> Option<Finding> {
    if a is Some {
        a
    } else {
        b
    }
}

/// Whether a key is one of a manifest.
pub open spec fn manifest_key(key: Seq<char>) -> bool {
    key == "$schema"@ || key == "name"@ || key == "version"@ || key == "description"@ || key
        == "author"@ || key == "homepage"@ || key == "repository"@ || key == "license"@ || key
        == "keywords"@ || key == "extensions"@
}

/// The findings on keys that no manifest has.
pub open spec fn unknown_fields(object: Seq<(Seq<char>, Json)>) -> Seq<Finding>
    decreases object.len(),
{
    if object.len() == 0 {
        Seq::empty()
    } else {
        let before = unknown_fields(object.drop_last());
        if manifest_key(object.last().0) {
            before
        } else {
            before.push(
                warned(
                    "manifest_unknown_field"@,
                    "plugin.json/"@ + object.last().0,
                    "unknown manifest field ignored"@,
                ),
            )
        }
    }
}

/// What is wrong with keywords, from one of them on.
pub open spec fn keyword_fault(items: Seq<Json>, from: nat) -> Option<Finding>
    decreases items.len() - from,
{
    if from >= items.len() {
        None
    } else if items[from as int] is String {
        keyword_fault(items, from + 1)
    } else {
        Some(
            failed(
                "manifest_keywords_invalid"@,
                "plugin.json/keywords/"@ + decimal(from),
                "keyword must be a string"@,
            ),
        )
    }
}

/// What is wrong with the keywords of a manifest.
pub open spec fn keywords_fault(value: Option<Json>) -> Option<Finding> {
    match value {
        None => None,
        Some(Json::Array(items)) => keyword_fault(items, 0),
        Some(_) => Some(
            failed(
                "manifest_keywords_invalid"@,
                "plugin.json/keywords"@,
                "keywords must be an array of strings"@,
            ),
        ),
    }
}

/// The keywords of a manifest.
pub open spec fn keywords_of(value: Option<Json>) -> Seq<Seq<char>> {
    match value {
        Some(Json::Array(items)) => items.map_values(|v: Json| v->String_0),
        _ => Seq::empty(),
    }
}

/// The first key that no author has, from one of them on.
pub open spec fn strange_author_key(object: Seq<(Seq<char>, Json)>, from: nat) -> Option<Seq<char>>
    decreases object.len() - from,
{
    if from >= object.len() {
        None
    } else {
        let key = object[from as int].0;
        if key == "name"@ || key == "email"@ || key == "url"@ {
            strange_author_key(object, from + 1)
        } else {
            Some(key)
        }
    }
}

/// What is wrong with the author of a manifest.
pub open spec fn author_fault(value: Option<Json>) -> Option<Finding> {
    match value {
        None => None,
        Some(Json::Object(object)) => match strange_author_key(object, 0) {
            Some(key) => Some(
                failed(
                    "manifest_author_invalid"@,
                    "plugin.json/author/"@ + key,
                    "author has an unknown field"@,
                ),
            ),
            None => first(
                optional_fault(object, "name"@, "plugin.json/author/name"@),
                first(
                    optional_fault(object, "email"@, "plugin.json/author/email"@),
                    optional_fault(object, "url"@, "plugin.json/author/url"@),
                ),
            ),
        },
        Some(_) => Some(
            failed("manifest_author_invalid"@, "plugin.json/author"@, "author must be an object"@),
        ),
    }
}

/// The author of a manifest.
pub open spec fn author_of(value: Option<Json>) -> Option<Author> {
    match value {
        Some(Json::Object(object)) => Some(
            Author {
                name: text_at(object, "name"@),
                email: text_at(object, "email"@),
                url: text_at(object, "url"@),
            },
        ),
        _ => None,
    }
}

/// The extensions that are objects.
pub open spec fn kept_extensions(object: Seq<(Seq<char>, Json)>) -> Seq<(Seq<char>, Json)>
    decreases object.len(),
{
    if object.len() == 0 {
        Seq::empty()
    } else {
        let before = kept_extensions(object.drop_last());
        if object.last().1 is Object {
            before.push(object.last())
        } else {
            before
        }
    }
}

/// The findings on extensions that are no objects.
pub open spec fn ignored_extensions(object: Seq<(Seq<char>, Json)>) -> Seq<Finding>
    decreases object.len(),
{
    if object.len() == 0 {
        Seq::empty()
    } else {
        let before = ignored_extensions(object.drop_last());
        if object.last().1 is Object {
            before
        } else {
            before.push(
                warned(
                    "manifest_extension_ignored"@,
                    "plugin.json/extensions/"@ + object.last().0,
                    "non-object extension namespace ignored"@,
                ),
            )
        }
    }
}

/// The extensions of a manifest.
pub open spec fn extensions_of(value: Option<Json>) -> Seq<(Seq<char>, Json)> {
    match value {
        Some(Json::Object(object)) => tabled(kept_extensions(object)),
        _ => Seq::empty(),
    }
}

/// The findings on the extensions of a manifest.
pub open spec fn extension_findings(value: Option<Json>) -> Seq<Finding> {
    match value {
        None => Seq::empty(),
        Some(Json::Object(object)) => ignored_extensions(object),
        Some(_) => seq![
            warned(
                "manifest_extensions_ignored"@,
                "plugin.json/extensions"@,
                "non-object extensions field ignored"@,
            ),
        ],
    }
}

/// What makes a manifest unusable: the first fault, in the order in which the
/// fields are read.
pub open spec fn manifest_fault(object: Seq<(Seq<char>, Json)>) -> Option<Finding> {
    let schema = text_at(object, "$schema"@)->Some_0;
    let name = text_at(object, "name"@)->Some_0;
    if required_fault(object, "$schema"@, "plugin.json/$schema"@) is Some {
        required_fault(object, "$schema"@, "plugin.json/$schema"@)
    } else if schema != AGENT_PLUGIN_SCHEMA@ {
        Some(
            failed(
                "manifest_schema_unsupported"@,
                "plugin.json/$schema"@,
                "unsupported schema: "@ + schema,
            ),
        )
    } else if required_fault(object, "name"@, "plugin.json/name"@) is Some {
        required_fault(object, "name"@, "plugin.json/name"@)
    } else if !plugin_name(name) {
        Some(
            failed("manifest_name_invalid"@, "plugin.json/name"@, "invalid plugin name: "@ + name),
        )
    } else {
        first(
            optional_fault(object, "version"@, "plugin.json/version"@),
            first(
                optional_fault(object, "description"@, "plugin.json/description"@),
                first(
                    optional_fault(object, "homepage"@, "plugin.json/homepage"@),
                    first(
                        optional_fault(object, "repository"@, "plugin.json/repository"@),
                        first(
                            optional_fault(object, "license"@, "plugin.json/license"@),
                            first(
                                keywords_fault(lookup(object, "keywords"@)),
                                author_fault(lookup(object, "author"@)),
                            ),
                        ),
                    ),
                ),
            ),
        )
    }
}

/// The manifest that an object holds.
pub open spec fn manifest_of(object: Seq<(Seq<char>, Json)>) -> Manifest {
    Manifest {
        schema: text_at(object, "$schema"@)->Some_0,
        name: text_at(object, "name"@)->Some_0,
        version: text_at(object, "version"@),
        description: text_at(object, "description"@),
        author: author_of(lookup(object, "author"@)),
        homepage: text_at(object, "homepage"@),
        repository: text_at(object, "repository"@),
        license: text_at(object, "license"@),
        keywords: keywords_of(lookup(object, "keywords"@)),
    }
}

/// The manifest that a value holds, with its extensions, where it can be used.
pub open spec fn read_manifest(value: Json) -> Option<(Manifest, Seq<(Seq<char>, Json)>)> {
    match value {
        Json::Object(object) if manifest_fault(object) is None => Some(
            (manifest_of(object), extensions_of(lookup(object, "extensions"@))),
        ),
        _ => None,
    }
}

/// The findings on a manifest.
pub open spec fn manifest_findings(value: Json) -> Seq<Finding> {
    match value {
        Json::Object(object) => match manifest_fault(object) {
            Some(fault) => unknown_fields(object).push(fault),
            None => unknown_fields(object) + extension_findings(lookup(object, "extensions"@)),
        },
        _ => seq![
            failed("manifest_not_object"@, "plugin.json"@, "manifest must be a JSON object"@),
        ],
    }
}

fn required_string(object: &Vec<(String, Value)>, key: &str, path: &str) -> (r: Result<
    String,
    AgentPluginDiagnostic,
>)
    ensures
        match r {
            Ok(text) => required_fault(entries(object@), key@, path@) is None && text_at(
                entries(object@),
                key@,
            ) == Some(text@),
            Err(d) => required_fault(entries(object@), key@, path@) == Some(d@),
        },
{
    if let Some(Value::String(text)) = get(object, key) {
        if crate::text::chars_of(text.as_str()).len() > 0 {
            return Ok(text.clone());
        }
    }
    Err(
        error(
            "manifest_required_field_invalid",
            path.to_string(),
            cat(key, " must be a non-empty string"),
        ),
    )
}

fn optional_string(object: &Vec<(String, Value)>, key: &str, path: &str) -> (r: Result<
    Option<String>,
    AgentPluginDiagnostic,
>)
    ensures
        match r {
            Ok(text) => optional_fault(entries(object@), key@, path@) is None && text_at(
                entries(object@),
                key@,
            ) == opt_text(text),
            Err(d) => optional_fault(entries(object@), key@, path@) == Some(d@),
        },
{
    match get(object, key) {
        None => Ok(None),
        Some(Value::String(text)) => Ok(Some(text.clone())),
        Some(_) => Err(
            error("manifest_field_invalid", path.to_string(), cat(key, " must be a string")),
        ),
    }
}

fn is_manifest_key(key: &str) -> (r: bool)
    ensures
        r == manifest_key(key@),
{
    same(key, "$schema") || same(key, "name") || same(key, "version") || same(key, "description")
        || same(key, "author") || same(key, "homepage") || same(key, "repository") || same(
        key,
        "license",
    ) || same(key, "keywords") || same(key, "extensions")
}

fn warn_of_unknown_fields(
    object: &Vec<(String, Value)>,
    diagnostics: &mut Vec<AgentPluginDiagnostic>,
)
    ensures
        findings(final(diagnostics)@) == findings(old(diagnostics)@) + unknown_fields(
            entries(object@),
        ),
{
    let ghost start = findings(diagnostics@);
    let ghost all = entries(object@);
    let mut i: usize = 0;
    assert(start + unknown_fields(all.take(0)) =~= start);
    while i < object.len()
        invariant
            i <= object@.len(),
            all == entries(object@),
            findings(diagnostics@) == start + unknown_fields(all.take(i as int)),
        decreases object.len() - i,
    {
        assert(all.take(i + 1).drop_last() =~= all.take(i as int));
        assert(all.take(i + 1).last().0 == object@[i as int].0@);
        if !is_manifest_key(object[i].0.as_str()) {
            push_diagnostic(
                diagnostics,
                warning(
                    "manifest_unknown_field",
                    cat("plugin.json/", object[i].0.as_str()),
                    "unknown manifest field ignored".to_string(),
                ),
            );
        }
        assert(findings(diagnostics@) =~= start + unknown_fields(all.take(i + 1)));
        i += 1;
    }
    assert(all.take(all.len() as int) =~= all);
}

fn parse_keywords(value: Option<&Value>) -> (r: Result<Vec<String>, AgentPluginDiagnostic>)
    ensures
        ({
            let v = match value {
                Some(x) => Some(x@),
                None => None,
            };
            match r {
                Ok(list) => keywords_fault(v) is None && texts(list@) == keywords_of(v),
                Err(d) => keywords_fault(v) == Some(d@),
            }
        }),
{
    broadcast use lemma_array_view;

    let mut out: Vec<String> = Vec::new();
    match value {
        None => {
            assert(texts(out@) =~= Seq::empty());
            Ok(out)
        },
        Some(Value::Array(items)) => {
            let ghost all = values(items@);
            let ghost want = keywords_of(Some(Json::Array(all)));
            let mut i: usize = 0;
            assert(texts(out@) =~= want.take(0));
            while i < items.len()
                invariant
                    i <= items.len(),
                    all == values(items@),
                    want == all.map_values(|v: Json| v->String_0),
                    keyword_fault(all, i as nat) == keyword_fault(all, 0),
                    texts(out@) == want.take(i as int),
                    *value->Some_0 == Value::Array(*items),
                    value is Some,
                decreases items.len() - i,
            {
                broadcast use lemma_array_view;

                assert(all[i as int] == items@[i as int]@);
                if let Value::String(text) = &items[i] {
                    let ghost was = texts(out@);
                    out.push(text.clone());
                    assert(texts(out@) =~= was.push(want[i as int]));
                    assert(want.take(i + 1) =~= want.take(i as int).push(want[i as int]));
                } else {
                    assert(usize::MAX <= u64::MAX);
                    return Err(
                        error(
                            "manifest_keywords_invalid",
                            cat("plugin.json/keywords/", decimal_text(i as u64).as_str()),
                            "keyword must be a string".to_string(),
                        ),
                    );
                }
                i += 1;
            }
            assert(want.take(want.len() as int) =~= want);
            Ok(out)
        },
        Some(_) => Err(
            error(
                "manifest_keywords_invalid",
                "plugin.json/keywords".to_string(),
                "keywords must be an array of strings".to_string(),
            ),
        ),
    }
}

fn find_strange_author_key(object: &Vec<(String, Value)>) -> (r: Option<String>)
    ensures
        opt_text(r) == strange_author_key(entries(object@), 0),
{
    let ghost all = entries(object@);
    let mut i: usize = 0;
    while i < object.len()
        invariant
            i <= object@.len(),
            all == entries(object@),
            strange_author_key(all, i as nat) == strange_author_key(all, 0),
        decreases object.len() - i,
    {
        assert(all[i as int].0 == object@[i as int].0@);
        let key = object[i].0.as_str();
        if !(same(key, "name") || same(key, "email") || same(key, "url")) {
            return Some(object[i].0.clone());
        }
        i += 1;
    }
    None
}

fn parse_author(value: Option<&Value>) -> (r: Result<
    Option<AgentPluginAuthor>,
    AgentPluginDiagnostic,
>)
    ensures
        ({
            let v = match value {
                Some(x) => Some(x@),
                None => None,
            };
            match r {
                Ok(author) => author_fault(v) is None && author_of(v) == (match author {
                    Some(a) => Some(a@),
                    None => None,
                }),
                Err(d) => author_fault(v) == Some(d@),
            }
        }),
{
    broadcast use lemma_object_view;

    let object = match value {
        None => {
            return Ok(None);
        },
        Some(Value::Object(object)) => object,
        Some(_) => {
            return Err(
                error(
                    "manifest_author_invalid",
                    "plugin.json/author".to_string(),
                    "author must be an object".to_string(),
                ),
            );
        },
    };
    if let Some(key) = find_strange_author_key(object) {
        return Err(
            error(
                "manifest_author_invalid",
                cat("plugin.json/author/", key.as_str()),
                "author has an unknown field".to_string(),
            ),
        );
    }
    let name = match optional_string(object, "name", "plugin.json/author/name") {
        Ok(text) => text,
        Err(d) => {
            return Err(d);
        },
    };
    let email = match optional_string(object, "email", "plugin.json/author/email") {
        Ok(text) => text,
        Err(d) => {
            return Err(d);
        },
    };
    let url = match optional_string(object, "url", "plugin.json/author/url") {
        Ok(text) => text,
        Err(d) => {
            return Err(d);
        },
    };
    Ok(Some(AgentPluginAuthor { name, email, url }))
}

fn parse_extensions(value: Option<&Value>, diagnostics: &mut Vec<AgentPluginDiagnostic>) -> (r: Vec<
    (String, Value),
>)
    ensures
        ({
            let v = match value {
                Some(x) => Some(x@),
                None => None,
            };
            &&& entries(r@) == extensions_of(v)
            &&& findings(final(diagnostics)@) == findings(old(diagnostics)@) + extension_findings(v)
        }),
{
    broadcast use lemma_object_view;

    let ghost start = findings(diagnostics@);
    let mut out: Vec<(String, Value)> = Vec::new();
    assert(entries(out@) =~= Seq::empty());
    assert(start + Seq::<Finding>::empty() =~= start);
    match value {
        None => out,
        Some(Value::Object(object)) => {
            let ghost all = entries(object@);
            let mut i: usize = 0;
            assert(start + ignored_extensions(all.take(0)) =~= start);
            while i < object.len()
                invariant
                    i <= object@.len(),
                    all == entries(object@),
                    entries(out@) == kept_extensions(all.take(i as int)),
                    findings(diagnostics@) == start + ignored_extensions(all.take(i as int)),
                decreases object.len() - i,
            {
                assert(all.take(i + 1).drop_last() =~= all.take(i as int));
                assert(all.take(i + 1).last() == (object@[i as int].0@, object@[i as int].1@));
                if let Value::Object(_) = &object[i].1 {
                    let ghost was = entries(out@);
                    out.push((object[i].0.clone(), object[i].1.copy()));
                    assert(entries(out@) =~= was.push(all[i as int]));
                } else {
                    push_diagnostic(
                        diagnostics,
                        warning(
                            "manifest_extension_ignored",
                            cat("plugin.json/extensions/", object[i].0.as_str()),
                            "non-object extension namespace ignored".to_string(),
                        ),
                    );
                }
                assert(findings(diagnostics@) =~= start + ignored_extensions(all.take(i + 1)));
                i += 1;
            }
            assert(all.take(all.len() as int) =~= all);
            to_table(&out)
        },
        Some(_) => {
            push_diagnostic(
                diagnostics,
                warning(
                    "manifest_extensions_ignored",
                    "plugin.json/extensions".to_string(),
                    "non-object extensions field ignored".to_string(),
                ),
            );
            assert(findings(diagnostics@) =~= start + extension_findings(Some(value->Some_0@)));
            out
        },
    }
}

fn parse_fields(object: &Vec<(String, Value)>) -> (r: Result<
    AgentPluginManifest,
    AgentPluginDiagnostic,
>)
    ensures
        match r {
            Ok(manifest) => manifest_fault(entries(object@)) is None && manifest@ == manifest_of(
                entries(object@),
            ),
            Err(d) => manifest_fault(entries(object@)) == Some(d@),
        },
{
    let schema = match required_string(object, "$schema", "plugin.json/$schema") {
        Ok(text) => text,
        Err(d) => {
            return Err(d);
        },
    };
    if !same(schema.as_str(), AGENT_PLUGIN_SCHEMA) {
        return Err(
            error(
                "manifest_schema_unsupported",
                "plugin.json/$schema".to_string(),
                cat("unsupported schema: ", schema.as_str()),
            ),
        );
    }
    let name = match required_string(object, "name", "plugin.json/name") {
        Ok(text) => text,
        Err(d) => {
            return Err(d);
        },
    };
    if !is_plugin_name(name.as_str()) {
        return Err(
            error(
                "manifest_name_invalid",
                "plugin.json/name".to_string(),
                cat("invalid plugin name: ", name.as_str()),
            ),
        );
    }
    let version = match optional_string(object, "version", "plugin.json/version") {
        Ok(text) => text,
        Err(d) => {
            return Err(d);
        },
    };
    let description = match optional_string(object, "description", "plugin.json/description") {
        Ok(text) => text,
        Err(d) => {
            return Err(d);
        },
    };
    let homepage = match optional_string(object, "homepage", "plugin.json/homepage") {
        Ok(text) => text,
        Err(d) => {
            return Err(d);
        },
    };
    let repository = match optional_string(object, "repository", "plugin.json/repository") {
        Ok(text) => text,
        Err(d) => {
            return Err(d);
        },
    };
    let license = match optional_string(object, "license", "plugin.json/license") {
        Ok(text) => text,
        Err(d) => {
            return Err(d);
        },
    };
    let keywords = match parse_keywords(get(object, "keywords")) {
        Ok(list) => list,
        Err(d) => {
            return Err(d);
        },
    };
    let author = match parse_author(get(object, "author")) {
        Ok(author) => author,
        Err(d) => {
            return Err(d);
        },
    };
    Ok(
        AgentPluginManifest {
            schema,
            name,
            version,
            description,
            author,
            homepage,
            repository,
            license,
            keywords,
        },
    )
}

/// What a manifest with its extensions means.
pub open spec fn manifest_view(r: Option<(AgentPluginManifest, Vec<(String, Value)>)>) -> Option<
    (Manifest, Seq<(Seq<char>, Json)>),
> {
    match r {
        Some((manifest, extensions)) => Some((manifest@, entries(extensions@))),
        None => None,
    }
}

/// Reads a manifest and its extensions. Findings are added to the diagnostics.
pub fn parse_manifest(value: &Value, diagnostics: &mut Vec<AgentPluginDiagnostic>) -> (r: Option<
    (AgentPluginManifest, Vec<(String, Value)>),
>)
    ensures
        manifest_view(r) == read_manifest(value@),
        findings(final(diagnostics)@) == findings(old(diagnostics)@) + manifest_findings(value@),
{
    broadcast use lemma_object_view;

    let ghost start = findings(diagnostics@);
    let object = match value.as_object() {
        Some(object) => object,
        None => {
            push_diagnostic(
                diagnostics,
                error(
                    "manifest_not_object",
                    "plugin.json".to_string(),
                    "manifest must be a JSON object".to_string(),
                ),
            );
            assert(findings(diagnostics@) =~= start + manifest_findings(value@));
            return None;
        },
    };
    warn_of_unknown_fields(object, diagnostics);
    match parse_fields(object) {
        Ok(manifest) => {
            let extensions = parse_extensions(get(object, "extensions"), diagnostics);
            assert(findings(diagnostics@) =~= start + manifest_findings(value@));
            Some((manifest, extensions))
        },
        Err(d) => {
            push_diagnostic(diagnostics, d);
            assert(findings(diagnostics@) =~= start + manifest_findings(value@));
            None
        },
    }
}

/// A manifest is read exactly where it is an object with the supported schema and a valid
/// name, its texts are texts, its keywords are texts, and its author is sound.
pub proof fn law_sound_manifests_are_read(object: Seq<(Seq<char>, Json)>)
    ensures
        read_manifest(Json::Object(object)) is Some <==> {
            &&& lookup(object, "$schema"@) == Some(Json::String(AGENT_PLUGIN_SCHEMA@))
            &&& AGENT_PLUGIN_SCHEMA@.len() > 0
            &&& lookup(object, "name"@) matches Some(Json::String(name)) && name.len() > 0
                && plugin_name(name)
            &&& text_or_none(lookup(object, "version"@))
            &&& text_or_none(lookup(object, "description"@))
            &&& text_or_none(lookup(object, "homepage"@))
            &&& text_or_none(lookup(object, "repository"@))
            &&& text_or_none(lookup(object, "license"@))
            &&& lookup(object, "keywords"@) matches Some(keywords) ==> (keywords matches Json::Array(
                items,
            ) && forall|i: int| 0 <= i < items.len() ==> (#[trigger] items[i]) is String)
            &&& lookup(object, "author"@) matches Some(author) ==> (author matches Json::Object(own)
                && text_or_none(lookup(own, "name"@)) && text_or_none(lookup(own, "email"@))
                && text_or_none(lookup(own, "url"@)) && forall|i: int|
                0 <= i < own.len() ==> (#[trigger] own[i]).0 == "name"@ || own[i].0 == "email"@
                    || own[i].0 == "url"@)
        },
{
    if let Some(Json::Array(items)) = lookup(object, "keywords"@) {
        lemma_keyword_fault(items, 0);
    }
    if let Some(Json::Object(own)) = lookup(object, "author"@) {
        lemma_strange_author_key(own, 0);
    }
}

/// Whether a value is a text, if there is one.
pub open spec fn text_or_none(value: Option<Json>) -> bool {
    value matches Some(v) ==> v is String
}

proof fn lemma_keyword_fault(items: Seq<Json>, from: nat)
    ensures
        keyword_fault(items, from) is None <==> forall|i: int|
            from <= i < items.len() ==> (#[trigger] items[i]) is String,
    decreases items.len() - from,
{
    if from < items.len() && items[from as int] is String {
        lemma_keyword_fault(items, from + 1);
    }
}

proof fn lemma_strange_author_key(object: Seq<(Seq<char>, Json)>, from: nat)
    ensures
        strange_author_key(object, from) is None <==> forall|i: int|
            from <= i < object.len() ==> (#[trigger] object[i]).0 == "name"@ || object[i].0
                == "email"@ || object[i].0 == "url"@,
    decreases object.len() - from,
{
    if from < object.len() {
        let key = object[from as int].0;
        if key == "name"@ || key == "email"@ || key == "url"@ {
            lemma_strange_author_key(object, from + 1);
        }
    }
}

/// What a manifest says is what its fields hold.
pub proof fn law_manifests_say_what_they_hold(object: Seq<(Seq<char>, Json)>)
    requires
        read_manifest(Json::Object(object)) is Some,
    ensures
        ({
            let (m, _) = read_manifest(Json::Object(object))->0;
            &&& lookup(object, "$schema"@) == Some(Json::String(m.schema))
            &&& lookup(object, "name"@) == Some(Json::String(m.name))
            &&& m.version is None ==> lookup(object, "version"@) is None
            &&& m.version matches Some(s) ==> lookup(object, "version"@) == Some(Json::String(s))
            &&& m.description is None ==> lookup(object, "description"@) is None
            &&& m.description matches Some(s) ==> lookup(object, "description"@) == Some(
                Json::String(s),
            )
            &&& m.homepage is None ==> lookup(object, "homepage"@) is None
            &&& m.homepage matches Some(s) ==> lookup(object, "homepage"@) == Some(Json::String(s))
            &&& m.repository is None ==> lookup(object, "repository"@) is None
            &&& m.repository matches Some(s) ==> lookup(object, "repository"@) == Some(
                Json::String(s),
            )
            &&& m.license is None ==> lookup(object, "license"@) is None
            &&& m.license matches Some(s) ==> lookup(object, "license"@) == Some(Json::String(s))
            &&& m.author is Some <==> lookup(object, "author"@) is Some
            &&& lookup(object, "keywords"@) is None ==> m.keywords.len() == 0
            &&& lookup(object, "keywords"@) matches Some(Json::Array(items)) ==> m.keywords.len()
                == items.len() && forall|i: int|
                0 <= i < items.len() ==> #[trigger] items[i] == Json::String(m.keywords[i])
        }),
{
    law_sound_manifests_are_read(object);
}

/// A manifest that is refused says why, in one error behind the warnings about unknown
/// fields; one that is read has no error.
pub proof fn law_refused_manifests_say_why(value: Json)
    ensures
        ({
            let all = manifest_findings(value);
            &&& read_manifest(value) is None ==> all.len() > 0 && all.last().severity is Error
                && forall|i: int|
                0 <= i < all.len() - 1 ==> (#[trigger] all[i]).severity is Warning
            &&& read_manifest(value) is Some ==> forall|i: int|
                0 <= i < all.len() ==> (#[trigger] all[i]).severity is Warning
        }),
{
    if let Json::Object(object) = value {
        lemma_unknown_fields_warn(object);
        if let Some(Json::Object(extensions)) = lookup(object, "extensions"@) {
            lemma_ignored_extensions_warn(extensions);
        }
        if let Some(Json::Array(items)) = lookup(object, "keywords"@) {
            lemma_keyword_fault_is_error(items, 0);
        }
    }
}

proof fn lemma_keyword_fault_is_error(items: Seq<Json>, from: nat)
    ensures
        keyword_fault(items, from) matches Some(fault) ==> fault.severity is Error,
    decreases items.len() - from,
{
    if from < items.len() && items[from as int] is String {
        lemma_keyword_fault_is_error(items, from + 1);
    }
}

proof fn lemma_unknown_fields_warn(object: Seq<(Seq<char>, Json)>)
    ensures
        forall|i: int|
            0 <= i < unknown_fields(object).len() ==> (#[trigger] unknown_fields(
                object,
            )[i]).severity is Warning,
    decreases object.len(),
{
    if object.len() > 0 {
        lemma_unknown_fields_warn(object.drop_last());
    }
}

proof fn lemma_ignored_extensions_warn(object: Seq<(Seq<char>, Json)>)
    ensures
        forall|i: int|
            0 <= i < ignored_extensions(object).len() ==> (#[trigger] ignored_extensions(
                object,
            )[i]).severity is Warning,
    decreases object.len(),
{
    if object.len() > 0 {
        lemma_ignored_extensions_warn(object.drop_last());
    }
}

/// Each field that a manifest does not know is warned of under its name, in order, and no
/// other.
pub proof fn law_unknown_fields_are_warned_of(
    a: Seq<(Seq<char>, Json)>,
    b: Seq<(Seq<char>, Json)>,
    one: (Seq<char>, Json),
)
    ensures
        unknown_fields(a + b) == unknown_fields(a) + unknown_fields(b),
        one.0 == "$schema"@ || one.0 == "name"@ || one.0 == "version"@ || one.0 == "description"@
            || one.0 == "author"@ || one.0 == "homepage"@ || one.0 == "repository"@ || one.0
            == "license"@ || one.0 == "keywords"@ || one.0 == "extensions"@ ==> unknown_fields(seq![one]).len() == 0,
        !manifest_key(one.0) ==> unknown_fields(seq![one]).len() == 1 && unknown_fields(seq![one])[0].severity is Warning && unknown_fields(seq![one])[0].path
            == "plugin.json/"@ + one.0,
    decreases b.len(),
{
    reveal_with_fuel(unknown_fields, 2);
    assert(seq![one].drop_last() =~= Seq::empty());
    assert(unknown_fields(seq![one].drop_last()) =~= Seq::empty());
    if b.len() == 0 {
        assert(a + b =~= a);
        assert(unknown_fields(a) + unknown_fields(b) =~= unknown_fields(a));
    } else {
        law_unknown_fields_are_warned_of(a, b.drop_last(), one);
        assert((a + b).drop_last() =~= a + b.drop_last());
        assert((a + b).last() == b.last());
        assert(unknown_fields(a + b) =~= unknown_fields(a) + unknown_fields(b));
    }
}

/// Of the extensions those that are objects are kept, in order.
pub proof fn law_sound_extensions_are_kept(
    a: Seq<(Seq<char>, Json)>,
    b: Seq<(Seq<char>, Json)>,
    one: (Seq<char>, Json),
)
    ensures
        kept_extensions(a + b) == kept_extensions(a) + kept_extensions(b),
        one.1 is Object ==> kept_extensions(seq![one]) == seq![one],
        !(one.1 is Object) ==> kept_extensions(seq![one]).len() == 0,
    decreases b.len(),
{
    reveal_with_fuel(kept_extensions, 2);
    assert(seq![one].drop_last() =~= Seq::empty());
    assert(kept_extensions(seq![one].drop_last()) =~= Seq::empty());
    if b.len() == 0 {
        assert(a + b =~= a);
        assert(kept_extensions(a) + kept_extensions(b) =~= kept_extensions(a));
    } else {
        law_sound_extensions_are_kept(a, b.drop_last(), one);
        assert((a + b).drop_last() =~= a + b.drop_last());
        assert((a + b).last() == b.last());
        assert(kept_extensions(a + b) =~= kept_extensions(a) + kept_extensions(b));
    }
}

/// Of the extensions those that are no objects are warned of under their names.
pub proof fn law_unsound_extensions_are_warned_of(
    a: Seq<(Seq<char>, Json)>,
    b: Seq<(Seq<char>, Json)>,
    one: (Seq<char>, Json),
)
    ensures
        ignored_extensions(a + b) == ignored_extensions(a) + ignored_extensions(b),
        one.1 is Object ==> ignored_extensions(seq![one]).len() == 0,
        !(one.1 is Object) ==> ignored_extensions(seq![one]).len() == 1 && ignored_extensions(seq![one])[0].path == "plugin.json/extensions/"@ + one.0,
    decreases b.len(),
{
    reveal_with_fuel(ignored_extensions, 2);
    assert(seq![one].drop_last() =~= Seq::empty());
    assert(ignored_extensions(seq![one].drop_last()) =~= Seq::empty());
    if b.len() == 0 {
        assert(a + b =~= a);
        assert(ignored_extensions(a) + ignored_extensions(b) =~= ignored_extensions(a));
    } else {
        law_unsound_extensions_are_warned_of(a, b.drop_last(), one);
        assert((a + b).drop_last() =~= a + b.drop_last());
        assert((a + b).last() == b.last());
        assert(ignored_extensions(a + b) =~= ignored_extensions(a) + ignored_extensions(b));
    }
}

/// The author is what the fields of the author hold.
pub proof fn law_authors_are_read(object: Seq<(Seq<char>, Json)>, own: Seq<(Seq<char>, Json)>)
    requires
        read_manifest(Json::Object(object)) is Some,
        lookup(object, "author"@) == Some(Json::Object(own)),
    ensures
        ({
            let (m, _) = read_manifest(Json::Object(object))->0;
            &&& m.author matches Some(author)
            &&& author.name is None ==> lookup(own, "name"@) is None
            &&& author.name matches Some(s) ==> lookup(own, "name"@) == Some(Json::String(s))
            &&& author.email is None ==> lookup(own, "email"@) is None
            &&& author.email matches Some(s) ==> lookup(own, "email"@) == Some(Json::String(s))
            &&& author.url is None ==> lookup(own, "url"@) is None
            &&& author.url matches Some(s) ==> lookup(own, "url"@) == Some(Json::String(s))
        }),
{
    law_sound_manifests_are_read(object);
}

} // verus!
