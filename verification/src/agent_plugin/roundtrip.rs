//! What is published is read back.

use vstd::prelude::*;
use crate::agent_plugin::loader::manifest::{
    author_fault, author_of, extensions_of, ignored_extensions, kept_extensions, keyword_fault,
    keywords_fault, keywords_of, manifest_fault, manifest_findings, manifest_key, manifest_of,
    read_manifest, strange_author_key, unknown_fields, Author, Manifest,
};
use crate::agent_plugin::loader::servers::{
    all_expanded, binding_findings, binding_result, bindings, command_result, cwd_result,
    entries_texts, field_table, field_texts, header_finding, items_texts, listed_servers,
    loaded_bindings, reserved_key, server_outcome, servers_findings, strange_http_key,
    strange_stdio_key, table_expanded, url_finding, Binding, HttpBinding, ServerPaths, StdioBinding,
};
use crate::agent_plugin::loader::{
    contained_file, AgentPluginLoadOptions, AgentPluginMcpTransport, Document, Finding, Located,
    AGENT_PLUGIN_SCHEMA,
};
use crate::agent_plugin::names::{mcp_command, plugin_name};
use crate::agent_plugin::paths::normalized;
use crate::agent_plugin::publish::{
    all_canonical, all_extensions, author_json, canonical, canonical_entries, lemma_canonical,
    manifest_json, manifest_pairs, reserved_extension, servers_json, AgentPluginAuthor,
    AgentPluginPublisherOptions,
};
use crate::address::parsed_url;
use crate::agent_plugin::servers::{
    env_fault, headers_fault, if_any, server_fault, server_json, texts_object, url_fault, Server,
};
use crate::headers::{http_name, http_value};
use crate::table;
use crate::table::{distinct, inserted, keys, lookup, mapped, ordered, sorted};
use crate::text::{before, find, lemma_before_asymmetric, lemma_find_from, opt_text, texts};
use crate::value::{
    collected, entries, lemma_collected_push, lemma_tabled, object, opt_string, strings, tabled,
    with_some, Json, Value,
};

verus! {

/// Collected entries have each key once.
proof fn lemma_collected_distinct(pairs: Seq<(Seq<char>, Json)>)
    ensures
        distinct(collected(pairs)),
    decreases pairs.len(),
{
    if pairs.len() > 0 {
        lemma_collected_distinct(pairs.drop_last());
        table::lemma_stored_keys(collected(pairs.drop_last()), pairs.last().0, pairs.last().1);
    }
}

/// The entries of an object in canonical form.
spec fn written_entries(pairs: Seq<(Seq<char>, Json)>) -> Seq<(Seq<char>, Json)> {
    ordered(canonical_entries(collected(pairs)))
}

/// The canonical form of an object has its keys, with their values in canonical
/// form.
proof fn lemma_canonical_object(pairs: Seq<(Seq<char>, Json)>)
    ensures
        canonical(object(pairs)) == Json::Object(written_entries(pairs)),
        forall|key: Seq<char>|
            #[trigger] lookup(written_entries(pairs), key) == (match lookup(collected(pairs), key) {
                Some(v) => Some(canonical(v)),
                None => None,
            }),
        forall|i: int|
            0 <= i < written_entries(pairs).len() ==> lookup(
                collected(pairs),
                (#[trigger] written_entries(pairs)[i]).0,
            ) is Some,
{
    let all = collected(pairs);
    let made = canonical_entries(all);
    let written = written_entries(pairs);
    lemma_canonical(Seq::empty(), all);
    lemma_collected_distinct(pairs);
    assert(keys(made) =~= keys(all));
    assert forall|key: Seq<char>|
        #[trigger] lookup(written, key) == (match lookup(all, key) {
            Some(v) => Some(canonical(v)),
            None => None,
        }) by {
        table::lemma_lookup_mapped(all, key, |x: Json| canonical(x));
        assert(made =~= mapped(all, |x: Json| canonical(x)));
        table::lemma_lookup_ordered(made, key);
    }
    assert forall|i: int| 0 <= i < written.len() implies lookup(
        all,
        (#[trigger] written[i]).0,
    ) is Some by {
        table::lemma_position_from(keys(written), written[i].0, 0);
        assert(keys(written)[i] == written[i].0);
        assert(lookup(written, written[i].0) is Some);
    }
}

/// An entry that is stored where there is a value for it is found under its key,
/// and no other is changed.
proof fn lemma_with_some(pairs: Seq<(Seq<char>, Json)>, key: Seq<char>, value: Option<Json>)
    ensures
        forall|k: Seq<char>|
            #[trigger] lookup(collected(with_some(pairs, key, value)), k) == (if k == key
                && value is Some {
                value
            } else {
                lookup(collected(pairs), k)
            }),
{
    assert forall|k: Seq<char>|
        #[trigger] lookup(collected(with_some(pairs, key, value)), k) == (if k == key
            && value is Some {
            value
        } else {
            lookup(collected(pairs), k)
        }) by {
        if let Some(v) = value {
            lemma_collected_push(pairs, (key, v));
            table::lemma_lookup_stored(collected(pairs), key, v, k);
        }
    }
}

/// An object whose keys all belong to a manifest has no unknown field.
proof fn lemma_all_known(all: Seq<(Seq<char>, Json)>)
    requires
        forall|i: int| 0 <= i < all.len() ==> manifest_key((#[trigger] all[i]).0),
    ensures
        unknown_fields(all) == Seq::<crate::agent_plugin::loader::Finding>::empty(),
    decreases all.len(),
{
    if all.len() > 0 {
        let head = all.drop_last();
        assert forall|i: int| 0 <= i < head.len() implies manifest_key(
            (#[trigger] head[i]).0,
        ) by {
            assert(head[i] == all[i]);
        }
        lemma_all_known(head);
        assert(all.last() == all[all.len() - 1]);
    }
}

proof fn lemma_no_strange_key(all: Seq<(Seq<char>, Json)>, from: nat)
    requires
        from <= all.len(),
        forall|i: int|
            0 <= i < all.len() ==> {
                let key = (#[trigger] all[i]).0;
                key == "name"@ || key == "email"@ || key == "url"@
            },
    ensures
        strange_author_key(all, from) is None,
    decreases all.len() - from,
{
    if from < all.len() {
        lemma_no_strange_key(all, from + 1);
    }
}

proof fn lemma_no_entries(key: Seq<char>)
    ensures
        lookup(collected(Seq::<(Seq<char>, Json)>::empty()), key) is None,
{
    table::lemma_position_from(keys(Seq::<(Seq<char>, Json)>::empty()), key, 0);
}

/// An author is read back as it was written.
proof fn lemma_author(author: AgentPluginAuthor)
    ensures
        author_fault(Some(canonical(author_json(author)))) is None,
        author_of(Some(canonical(author_json(author)))) == Some(
            Author {
                name: opt_text(author.name),
                email: opt_text(author.email),
                url: opt_text(author.url),
            },
        ),
{
    let none = Seq::<(Seq<char>, Json)>::empty();
    let name = opt_string(opt_text(author.name));
    let email = opt_string(opt_text(author.email));
    let url = opt_string(opt_text(author.url));
    let a = with_some(none, "name"@, name);
    let b = with_some(a, "email"@, email);
    let c = with_some(b, "url"@, url);
    reveal_strlit("name");
    reveal_strlit("email");
    reveal_strlit("url");
    assert("name"@.len() == 4 && "email"@.len() == 5 && "url"@.len() == 3);
    lemma_with_some(none, "name"@, name);
    lemma_with_some(a, "email"@, email);
    lemma_with_some(b, "url"@, url);
    lemma_canonical_object(c);
    let all = written_entries(c);
    lemma_no_entries("name"@);
    lemma_no_entries("email"@);
    lemma_no_entries("url"@);
    assert forall|i: int| 0 <= i < all.len() implies {
        let key = (#[trigger] all[i]).0;
        key == "name"@ || key == "email"@ || key == "url"@
    } by {
        let key = all[i].0;
        lemma_no_entries(key);
        assert(lookup(collected(c), key) is Some);
    }
    lemma_no_strange_key(all, 0);
    assert(lookup(all, "name"@) == name);
    assert(lookup(all, "email"@) == email);
    assert(lookup(all, "url"@) == url);
}

/// Keywords are read back as they were written.
proof fn lemma_keywords(v: Seq<Seq<char>>)
    ensures
        keywords_fault(Some(canonical(strings(v)))) is None,
        keywords_of(Some(canonical(strings(v)))) == v,
{
    let items = v.map_values(|s: Seq<char>| Json::String(s));
    lemma_canonical(items, Seq::empty());
    assert(all_canonical(items) =~= items);
    lemma_only_texts(items, 0);
    assert(items.map_values(|x: Json| x->String_0) =~= v);
}

proof fn lemma_only_texts(items: Seq<Json>, from: nat)
    requires
        from <= items.len(),
        forall|i: int| 0 <= i < items.len() ==> #[trigger] items[i] is String,
    ensures
        keyword_fault(items, from) is None,
    decreases items.len() - from,
{
    if from < items.len() {
        lemma_only_texts(items, from + 1);
    }
}

/// Extensions that are objects are all kept.
proof fn lemma_kept(all: Seq<(Seq<char>, Json)>)
    requires
        forall|i: int| 0 <= i < all.len() ==> (#[trigger] all[i]).1 is Object,
    ensures
        kept_extensions(all) == all,
        ignored_extensions(all) == Seq::<crate::agent_plugin::loader::Finding>::empty(),
    decreases all.len(),
{
    if all.len() > 0 {
        let head = all.drop_last();
        assert forall|i: int| 0 <= i < head.len() implies (#[trigger] head[i]).1 is Object by {
            assert(head[i] == all[i]);
        }
        lemma_kept(head);
        assert(all.last() == all[all.len() - 1]);
        assert(head.push(all.last()) =~= all);
    }
}

spec fn chain(
    name: Json,
    version: Option<Json>,
    description: Option<Json>,
    author: Option<Json>,
    homepage: Option<Json>,
    repository: Option<Json>,
    license: Option<Json>,
    keywords: Option<Json>,
    extensions: Option<Json>,
) -> Seq<(Seq<char>, Json)> {
    let a = Seq::empty().push(
        (
            "$schema"@,
            Json::String("https://agent-plugins.org/schemas/1.0.0/plugin.schema.json"@),
        ),
    ).push(("name"@, name));
    let b = with_some(a, "version"@, version);
    let c = with_some(b, "description"@, description);
    let d = with_some(c, "author"@, author);
    let e = with_some(d, "homepage"@, homepage);
    let f = with_some(e, "repository"@, repository);
    let g = with_some(f, "license"@, license);
    let h = with_some(g, "keywords"@, keywords);
    with_some(h, "extensions"@, extensions)
}

proof fn lemma_distinct_keys()
    ensures
        "$schema"@.len() == 7 && "$schema"@[0] == '$',
        "version"@.len() == 7 && "version"@[0] == 'v',
        "license"@.len() == 7 && "license"@[0] == 'l',
        "homepage"@.len() == 8 && "homepage"@[0] == 'h',
        "keywords"@.len() == 8 && "keywords"@[0] == 'k',
        "repository"@.len() == 10 && "repository"@[0] == 'r',
        "extensions"@.len() == 10 && "extensions"@[0] == 'e',
        "name"@.len() == 4,
        "author"@.len() == 6,
        "description"@.len() == 11,
{
    reveal_strlit("$schema");
    reveal_strlit("version");
    reveal_strlit("license");
    reveal_strlit("homepage");
    reveal_strlit("keywords");
    reveal_strlit("repository");
    reveal_strlit("extensions");
    reveal_strlit("name");
    reveal_strlit("author");
    reveal_strlit("description");
}

proof fn lemma_chain(
    name: Json,
    version: Option<Json>,
    description: Option<Json>,
    author: Option<Json>,
    homepage: Option<Json>,
    repository: Option<Json>,
    license: Option<Json>,
    keywords: Option<Json>,
    extensions: Option<Json>,
)
    ensures
        ({
            let all = collected(
                chain(
                    name,
                    version,
                    description,
                    author,
                    homepage,
                    repository,
                    license,
                    keywords,
                    extensions,
                ),
            );
            &&& lookup(all, "$schema"@) == Some(
                Json::String("https://agent-plugins.org/schemas/1.0.0/plugin.schema.json"@),
            )
            &&& lookup(all, "name"@) == Some(name)
            &&& lookup(all, "version"@) == version
            &&& lookup(all, "description"@) == description
            &&& lookup(all, "author"@) == author
            &&& lookup(all, "homepage"@) == homepage
            &&& lookup(all, "repository"@) == repository
            &&& lookup(all, "license"@) == license
            &&& lookup(all, "keywords"@) == keywords
            &&& lookup(all, "extensions"@) == extensions
            &&& forall|key: Seq<char>|
                !manifest_key(key) ==> #[trigger] lookup(all, key) is None
        }),
{
    let none = Seq::<(Seq<char>, Json)>::empty();
    let schema = Json::String("https://agent-plugins.org/schemas/1.0.0/plugin.schema.json"@);
    let s = with_some(none, "$schema"@, Some(schema));
    let a = with_some(s, "name"@, Some(name));
    let b = with_some(a, "version"@, version);
    let c = with_some(b, "description"@, description);
    let d = with_some(c, "author"@, author);
    let e = with_some(d, "homepage"@, homepage);
    let f = with_some(e, "repository"@, repository);
    let g = with_some(f, "license"@, license);
    let h = with_some(g, "keywords"@, keywords);
    let z = with_some(h, "extensions"@, extensions);
    assert(z == chain(
        name,
        version,
        description,
        author,
        homepage,
        repository,
        license,
        keywords,
        extensions,
    ));
    lemma_distinct_keys();
    lemma_with_some(none, "$schema"@, Some(schema));
    lemma_with_some(s, "name"@, Some(name));
    lemma_with_some(a, "version"@, version);
    lemma_with_some(b, "description"@, description);
    lemma_with_some(c, "author"@, author);
    lemma_with_some(d, "homepage"@, homepage);
    lemma_with_some(e, "repository"@, repository);
    lemma_with_some(f, "license"@, license);
    lemma_with_some(g, "keywords"@, keywords);
    lemma_with_some(h, "extensions"@, extensions);
    assert forall|key: Seq<char>| #[trigger] lookup(collected(none), key) is None by {
        lemma_no_entries(key);
    }
}

/// Whether every extension of a package is an object.
pub open spec fn extensions_are_objects(options: AgentPluginPublisherOptions) -> bool {
    forall|i: int|
        0 <= i < all_extensions(options).len() ==> (#[trigger] all_extensions(options)[i]).1
            is Object
}

/// The manifest of a published package, with its extensions, is read back as it was
/// given, and nothing is found wrong with it.
pub proof fn law_published_manifest_is_read(options: AgentPluginPublisherOptions)
    requires
        plugin_name(options.manifest.name@),
        sorted(entries(options.manifest.extensions@)),
        extensions_are_objects(options),
    ensures
        read_manifest(manifest_json(options)) == Some(
            (
                Manifest {
                    schema: AGENT_PLUGIN_SCHEMA@,
                    name: options.manifest.name@,
                    version: opt_text(options.manifest.version),
                    description: opt_text(options.manifest.description),
                    author: match options.manifest.author {
                        Some(author) => Some(
                            Author {
                                name: opt_text(author.name),
                                email: opt_text(author.email),
                                url: opt_text(author.url),
                            },
                        ),
                        None => None,
                    },
                    homepage: opt_text(options.manifest.homepage),
                    repository: opt_text(options.manifest.repository),
                    license: opt_text(options.manifest.license),
                    keywords: texts(options.manifest.keywords@),
                },
                canonical_entries(all_extensions(options)),
            ),
        ),
        manifest_findings(manifest_json(options)).len() == 0,
{
    let m = options.manifest;
    let pairs = manifest_pairs(options);
    let words = texts(m.keywords@);
    let extensions = all_extensions(options);
    let author = match m.author {
        Some(author) => Some(author_json(author)),
        None => None,
    };
    assert(pairs == chain(
        Json::String(m.name@),
        opt_string(opt_text(m.version)),
        opt_string(opt_text(m.description)),
        author,
        opt_string(opt_text(m.homepage)),
        opt_string(opt_text(m.repository)),
        opt_string(opt_text(m.license)),
        if_any(words, strings(words)),
        if_any(extensions, Json::Object(extensions)),
    ));
    lemma_chain(
        Json::String(m.name@),
        opt_string(opt_text(m.version)),
        opt_string(opt_text(m.description)),
        author,
        opt_string(opt_text(m.homepage)),
        opt_string(opt_text(m.repository)),
        opt_string(opt_text(m.license)),
        if_any(words, strings(words)),
        if_any(extensions, Json::Object(extensions)),
    );
    lemma_canonical_object(pairs);
    let all = written_entries(pairs);
    lemma_plain_fields(options);
    assert forall|i: int| 0 <= i < all.len() implies manifest_key((#[trigger] all[i]).0) by {
        assert(lookup(collected(pairs), all[i].0) is Some);
    }
    lemma_all_known(all);
    if let Some(a) = m.author {
        lemma_author(a);
    }
    lemma_keywords(words);
    if words.len() == 0 {
        assert(words =~= Seq::empty());
    }
    let written = ordered(canonical_entries(extensions));
    lemma_written_extensions(options);
    lemma_canonical(Seq::empty(), extensions);
    lemma_objects_stay(extensions);
    lemma_kept(written);
    if extensions.len() == 0 {
        assert(canonical_entries(extensions) =~= Seq::empty());
        assert(written =~= Seq::empty());
        assert(extensions_of(lookup(all, "extensions"@)) =~= written);
    }
    assert(manifest_fault(all) is None);
    assert(read_manifest(manifest_json(options)) is Some);
    assert(manifest_of(all).keywords =~= words);
}

/// The extensions are written as they stand, and read as a table that is the same.
proof fn lemma_written_extensions(options: AgentPluginPublisherOptions)
    requires
        sorted(entries(options.manifest.extensions@)),
    ensures
        ordered(canonical_entries(all_extensions(options))) == canonical_entries(
            all_extensions(options),
        ),
        tabled(canonical_entries(all_extensions(options))) == canonical_entries(
            all_extensions(options),
        ),
{
    let given = entries(options.manifest.extensions@);
    let all = all_extensions(options);
    let made = canonical_entries(all);
    if options.tool_runtime is Some {
        let value = lookup(all, reserved_extension());
        assert(exists|v: Json| all == #[trigger] inserted(given, reserved_extension(), v));
        let v = choose|v: Json| all == #[trigger] inserted(given, reserved_extension(), v);
        table::lemma_sorted_inserted(given, reserved_extension(), v);
    }
    assert(sorted(all));
    assert forall|i: int, j: int| 0 <= i < j < made.len() implies before(
        #[trigger] made[i].0,
        #[trigger] made[j].0,
    ) by {
        assert(made[i].0 == all[i].0 && made[j].0 == all[j].0);
    }
    assert forall|i: int, j: int| 0 <= i < j < made.len() implies !before(
        #[trigger] made[j].0,
        #[trigger] made[i].0,
    ) by {
        lemma_before_asymmetric(made[i].0, made[j].0);
    }
    table::lemma_in_order_is_ordered(made);
    lemma_tabled(made);
}

/// Putting extensions in canonical form and in order keeps them objects.
proof fn lemma_objects_stay(v: Seq<(Seq<char>, Json)>)
    requires
        forall|i: int| 0 <= i < v.len() ==> (#[trigger] v[i]).1 is Object,
    ensures
        forall|i: int|
            0 <= i < ordered(canonical_entries(v)).len() ==> (#[trigger] ordered(
                canonical_entries(v),
            )[i]).1 is Object,
    decreases v.len(),
{
    let c = canonical_entries(v);
    if v.len() > 0 {
        let head = v.drop_last();
        assert forall|i: int| 0 <= i < head.len() implies (#[trigger] head[i]).1 is Object by {
            assert(head[i] == v[i]);
        }
        lemma_objects_stay(head);
        assert(c.drop_last() =~= canonical_entries(head));
        let o = ordered(c.drop_last());
        table::lemma_place(o, c.last().0);
        let p = table::place(o, c.last().0) as int;
        assert(v[v.len() - 1].1 is Object);
        assert(c.last().1 is Object);
        assert forall|i: int| 0 <= i < ordered(c).len() implies (#[trigger] ordered(c)[i]).1
            is Object by {
            if i < p {
                assert(ordered(c)[i] == o[i]);
            } else if i > p {
                assert(ordered(c)[i] == o[i - 1]);
            }
        }
    }
}

/// The plain fields of a written manifest are found under their keys.
proof fn lemma_plain_fields(options: AgentPluginPublisherOptions)
    requires
        ({
            let all = collected(manifest_pairs(options));
            let m = options.manifest;
            &&& lookup(all, "$schema"@) == Some(
                Json::String("https://agent-plugins.org/schemas/1.0.0/plugin.schema.json"@),
            )
            &&& lookup(all, "name"@) == Some(Json::String(m.name@))
            &&& lookup(all, "version"@) == opt_string(opt_text(m.version))
            &&& lookup(all, "description"@) == opt_string(opt_text(m.description))
            &&& lookup(all, "homepage"@) == opt_string(opt_text(m.homepage))
            &&& lookup(all, "repository"@) == opt_string(opt_text(m.repository))
            &&& lookup(all, "license"@) == opt_string(opt_text(m.license))
        }),
    ensures
        ({
            let all = written_entries(manifest_pairs(options));
            let m = options.manifest;
            &&& lookup(all, "$schema"@) == Some(Json::String(AGENT_PLUGIN_SCHEMA@))
            &&& lookup(all, "name"@) == Some(Json::String(m.name@))
            &&& lookup(all, "version"@) == opt_string(opt_text(m.version))
            &&& lookup(all, "description"@) == opt_string(opt_text(m.description))
            &&& lookup(all, "homepage"@) == opt_string(opt_text(m.homepage))
            &&& lookup(all, "repository"@) == opt_string(opt_text(m.repository))
            &&& lookup(all, "license"@) == opt_string(opt_text(m.license))
            &&& AGENT_PLUGIN_SCHEMA@.len() > 0
        }),
{
    lemma_canonical_object(manifest_pairs(options));
    reveal_strlit("https://agent-plugins.org/schemas/1.0.0/plugin.schema.json");
}

// ---------------------------------------------------------------------------
// Servers
// ---------------------------------------------------------------------------

/// Entries in the order of their keys, each key once, are collected as they stand.
proof fn lemma_collected_sorted(pairs: Seq<(Seq<char>, Json)>)
    requires
        sorted(pairs),
    ensures
        collected(pairs) == pairs,
    decreases pairs.len(),
{
    if pairs.len() > 0 {
        let head = pairs.drop_last();
        let key = pairs.last().0;
        assert forall|i: int, j: int| 0 <= i < j < head.len() implies before(
            #[trigger] head[i].0,
            #[trigger] head[j].0,
        ) by {
            assert(head[i] == pairs[i] && head[j] == pairs[j]);
        }
        lemma_collected_sorted(head);
        table::lemma_position_from(keys(head), key, 0);
        assert forall|i: int| 0 <= i < head.len() implies keys(head)[i] != key by {
            assert(before(pairs[i].0, pairs[pairs.len() - 1].0));
            lemma_before_asymmetric(pairs[i].0, pairs[pairs.len() - 1].0);
        }
        assert(head.push(pairs.last()) =~= pairs);
    }
}

/// Named texts as named values.
spec fn string_entries(v: Seq<(Seq<char>, Seq<char>)>) -> Seq<(Seq<char>, Json)> {
    v.map_values(|e: (Seq<char>, Seq<char>)| (e.0, Json::String(e.1)))
}

/// A table of texts is written as it stands.
proof fn lemma_written_texts(v: Seq<(Seq<char>, Seq<char>)>)
    requires
        sorted(v),
    ensures
        canonical(texts_object(v)) == Json::Object(string_entries(v)),
{
    let pairs = string_entries(v);
    assert forall|i: int, j: int| 0 <= i < j < pairs.len() implies before(
        #[trigger] pairs[i].0,
        #[trigger] pairs[j].0,
    ) by {
        assert(pairs[i].0 == v[i].0 && pairs[j].0 == v[j].0);
    }
    lemma_collected_sorted(pairs);
    lemma_canonical(Seq::empty(), pairs);
    assert(canonical_entries(pairs) =~= pairs) by {
        reveal_with_fuel(canonical, 2);
    }
    assert forall|i: int, j: int| 0 <= i < j < pairs.len() implies !before(
        #[trigger] pairs[j].0,
        #[trigger] pairs[i].0,
    ) by {
        lemma_before_asymmetric(pairs[i].0, pairs[j].0);
    }
    table::lemma_in_order_is_ordered(pairs);
}

/// An entry whose key comes behind all others is put behind them.
proof fn lemma_inserted_last<V>(entries: Seq<(Seq<char>, V)>, key: Seq<char>, value: V)
    requires
        forall|i: int| 0 <= i < entries.len() ==> before((#[trigger] entries[i]).0, key),
    ensures
        inserted(entries, key, value) == entries.push((key, value)),
{
    table::lemma_slot_from(keys(entries), key, 0);
    let slot = table::slot_from(keys(entries), key, 0) as int;
    if slot < entries.len() {
        assert(keys(entries)[slot] == entries[slot].0);
        lemma_before_asymmetric(entries[slot].0, key);
    }
    assert(entries.insert(slot, (key, value)) =~= entries.push((key, value)));
}

/// A table of texts is read as it stands.
proof fn lemma_read_texts(v: Seq<(Seq<char>, Seq<char>)>, server: Seq<char>, key: Seq<char>)
    requires
        sorted(v),
    ensures
        entries_texts(string_entries(v), server, key) == Ok::<
            Seq<(Seq<char>, Seq<char>)>,
            Finding,
        >(v),
    decreases v.len(),
{
    if v.len() > 0 {
        let head = v.drop_last();
        let last = v.last().0;
        assert forall|i: int, j: int| 0 <= i < j < head.len() implies before(
            #[trigger] head[i].0,
            #[trigger] head[j].0,
        ) by {
            assert(head[i] == v[i] && head[j] == v[j]);
        }
        lemma_read_texts(head, server, key);
        assert(string_entries(v).drop_last() =~= string_entries(head));
        assert forall|i: int| 0 <= i < head.len() implies before((#[trigger] head[i]).0, last) by {
            assert(before(v[i].0, v[v.len() - 1].0));
        }
        lemma_inserted_last(head, last, v.last().1);
        assert(head.push(v.last()) =~= v);
        assert(string_entries(v).last() == (last, Json::String(v.last().1)));
    } else {
        assert(v =~= Seq::empty());
    }
}

/// A list of texts is read as it was written.
proof fn lemma_read_list(v: Seq<Seq<char>>, server: Seq<char>, key: Seq<char>)
    ensures
        items_texts(v.map_values(|s: Seq<char>| Json::String(s)), server, key) == Ok::<
            Seq<Seq<char>>,
            Finding,
        >(v),
    decreases v.len(),
{
    let items = v.map_values(|s: Seq<char>| Json::String(s));
    if v.len() > 0 {
        lemma_read_list(v.drop_last(), server, key);
        assert(items.drop_last() =~= v.drop_last().map_values(|s: Seq<char>| Json::String(s)));
        assert(v.drop_last().push(v.last()) =~= v);
        assert(items.last() == Json::String(v.last()));
    } else {
        assert(v =~= Seq::empty());
    }
}

/// The field of a list of texts is read as it was written.
proof fn lemma_list_field(v: Seq<Seq<char>>, server: Seq<char>, key: Seq<char>)
    ensures
        field_texts(
            match if_any(v, strings(v)) {
                Some(x) => Some(canonical(x)),
                None => None,
            },
            server,
            key,
        ) == Ok::<Seq<Seq<char>>, Finding>(v),
{
    let items = v.map_values(|s: Seq<char>| Json::String(s));
    lemma_canonical(items, Seq::empty());
    assert(all_canonical(items) =~= items) by {
        reveal_with_fuel(canonical, 2);
    }
    lemma_read_list(v, server, key);
    if v.len() == 0 {
        assert(v =~= Seq::empty());
    }
}

/// The field of a table of texts is read as it was written.
proof fn lemma_table_field(v: Seq<(Seq<char>, Seq<char>)>, server: Seq<char>, key: Seq<char>)
    requires
        sorted(v),
    ensures
        field_table(
            match if_any(v, texts_object(v)) {
                Some(x) => Some(canonical(x)),
                None => None,
            },
            server,
            key,
        ) == Ok::<Seq<(Seq<char>, Seq<char>)>, Finding>(v),
{
    lemma_written_texts(v);
    lemma_read_texts(v, server, key);
    if v.len() == 0 {
        assert(v =~= Seq::empty());
    }
}

proof fn lemma_stdio_keys(all: Seq<(Seq<char>, Json)>, from: nat)
    requires
        from <= all.len(),
        forall|i: int|
            0 <= i < all.len() ==> {
                let key = (#[trigger] all[i]).0;
                key == "type"@ || key == "command"@ || key == "args"@ || key == "env"@ || key
                    == "cwd"@
            },
    ensures
        strange_stdio_key(all, from) is None,
    decreases all.len() - from,
{
    if from < all.len() {
        lemma_stdio_keys(all, from + 1);
    }
}

proof fn lemma_http_keys(all: Seq<(Seq<char>, Json)>, from: nat)
    requires
        from <= all.len(),
        forall|i: int|
            0 <= i < all.len() ==> {
                let key = (#[trigger] all[i]).0;
                key == "type"@ || key == "url"@ || key == "headers"@
            },
    ensures
        strange_http_key(all, from) is None,
    decreases all.len() - from,
{
    if from < all.len() {
        lemma_http_keys(all, from + 1);
    }
}

proof fn lemma_no_reserved(env: Seq<(Seq<char>, Seq<char>)>, from: nat)
    requires
        env_fault(env, from) is None,
    ensures
        reserved_key(env, from) is None,
    decreases env.len() - from,
{
    if from < env.len() {
        lemma_no_reserved(env, from + 1);
    }
}

/// A stdio server that the publisher takes is read back from a published package as it
/// was given, where its command and its working directory are found in the package.
pub proof fn law_published_stdio_server_is_read(
    name: Seq<char>,
    server: Server,
    root: Seq<char>,
    data: Seq<char>,
    paths: ServerPaths,
)
    requires
        server is Stdio,
        server_fault(server) is None,
        sorted(server->env),
        "./"@.is_prefix_of(server->command) ==> contained_file(root, paths.command) is Ok,
        server->cwd matches Some(cwd) ==> cwd_result(root, data, name, cwd, paths.cwd) is Ok,
    ensures
        binding_result(name, canonical(server_json(server)), root, data, paths) == Ok::<
            Binding,
            Finding,
        >(
            Binding::Stdio(
                StdioBinding {
                    command: server->command,
                    resolved_command: if "./"@.is_prefix_of(server->command) {
                        Some(contained_file(root, paths.command)->Ok_0)
                    } else {
                        None
                    },
                    args: server->args,
                    resolved_args: all_expanded(server->args, root, data),
                    env: server->env,
                    resolved_env: table_expanded(server->env, root, data),
                    cwd: server->cwd,
                    resolved_cwd: match server->cwd {
                        Some(cwd) => cwd_result(root, data, name, cwd, paths.cwd)->Ok_0,
                        None => root,
                    },
                },
            ),
        ),
{
    let command = server->command;
    let args = server->args;
    let env = server->env;
    let cwd = server->cwd;
    let none = Seq::<(Seq<char>, Json)>::empty();
    let a = with_some(none, "type"@, Some(Json::String("stdio"@)));
    let b = with_some(a, "command"@, Some(Json::String(command)));
    let c = with_some(b, "args"@, if_any(args, strings(args)));
    let d = with_some(c, "env"@, if_any(env, texts_object(env)));
    let e = with_some(d, "cwd"@, opt_string(cwd));
    reveal_strlit("type");
    reveal_strlit("command");
    reveal_strlit("args");
    reveal_strlit("env");
    reveal_strlit("cwd");
    assert("type"@[0] == 't' && "command"@.len() == 7 && "args"@[0] == 'a' && "env"@[0] == 'e'
        && "cwd"@[0] == 'c' && "type"@.len() == 4 && "args"@.len() == 4 && "env"@.len() == 3
        && "cwd"@.len() == 3);
    assert(server_json(server) == object(e));
    lemma_with_some(none, "type"@, Some(Json::String("stdio"@)));
    lemma_with_some(a, "command"@, Some(Json::String(command)));
    lemma_with_some(b, "args"@, if_any(args, strings(args)));
    lemma_with_some(c, "env"@, if_any(env, texts_object(env)));
    lemma_with_some(d, "cwd"@, opt_string(cwd));
    lemma_canonical_object(e);
    let all = written_entries(e);
    lemma_no_entries("type"@);
    lemma_no_entries("command"@);
    lemma_no_entries("args"@);
    lemma_no_entries("env"@);
    lemma_no_entries("cwd"@);
    assert forall|i: int| 0 <= i < all.len() implies {
        let key = (#[trigger] all[i]).0;
        key == "type"@ || key == "command"@ || key == "args"@ || key == "env"@ || key == "cwd"@
    } by {
        lemma_no_entries(all[i].0);
        assert(lookup(collected(e), all[i].0) is Some);
    }
    lemma_stdio_keys(all, 0);
    reveal_with_fuel(canonical, 2);
    assert(lookup(all, "type"@) == Some(Json::String("stdio"@)));
    assert(lookup(all, "command"@) == Some(Json::String(command)));
    assert(lookup(all, "cwd"@) == opt_string(cwd));
    lemma_list_field(args, name, "args"@);
    lemma_table_field(env, name, "env"@);
    lemma_no_reserved(env, 0);
    lemma_command_is_found(name, command, root, paths.command);
}

/// A command that the publisher takes is one that the loader takes, where its file is
/// found in the package.
proof fn lemma_command_is_found(
    name: Seq<char>,
    command: Seq<char>,
    root: Seq<char>,
    located: Located,
)
    requires
        mcp_command(command),
        "./"@.is_prefix_of(command) ==> contained_file(root, located) is Ok,
    ensures
        command_result(root, name, command, located) == Ok::<Option<Seq<char>>, Finding>(
            if "./"@.is_prefix_of(command) {
                Some(contained_file(root, located)->Ok_0)
            } else {
                None
            },
        ),
{
    if "./"@.is_prefix_of(command) {
        reveal_strlit("./");
        reveal_strlit("/");
        let rest = command.skip("./"@.len() as int);
        if rest.len() == 0 {
            assert(command =~= "./"@);
            assert("/"@.is_suffix_of(command)) by {
                assert("/"@ =~= command.subrange(1, 2));
            }
        }
    }
}

proof fn lemma_headers_are_taken(
    headers: Seq<(Seq<char>, Seq<char>)>,
    from: nat,
    server: Seq<char>,
)
    requires
        headers_fault(headers, from) is None,
        forall|i: int|
            0 <= i < headers.len() ==> http_name((#[trigger] headers[i]).0) && http_value(
                headers[i].1,
            ),
    ensures
        header_finding(headers, from, server) is None,
    decreases headers.len() - from,
{
    if from < headers.len() {
        assert(http_name(headers[from as int].0));
        lemma_headers_are_taken(headers, from + 1, server);
    }
}

/// A remote server that the publisher takes is read back from a published package as it
/// was given, where its URL and its headers are ones that a client can use.
pub proof fn law_published_remote_server_is_read(
    name: Seq<char>,
    server: Server,
    root: Seq<char>,
    data: Seq<char>,
    paths: ServerPaths,
)
    requires
        server is Remote,
        server_fault(server) is None,
        sorted(server->headers),
        url_finding(name, parsed_url(server->url)) is None,
        forall|i: int|
            0 <= i < server->headers.len() ==> http_name((#[trigger] server->headers[i]).0)
                && http_value(server->headers[i].1),
    ensures
        binding_result(name, canonical(server_json(server)), root, data, paths) == ({
            let binding = HttpBinding { url: server->url, headers: server->headers };
            Ok::<Binding, Finding>(
                if server->legacy {
                    Binding::Sse(binding)
                } else {
                    Binding::StreamableHttp(binding)
                },
            )
        }),
{
    let url = server->url;
    let headers = server->headers;
    let kind = if server->legacy {
        "sse"@
    } else {
        "streamable-http"@
    };
    let none = Seq::<(Seq<char>, Json)>::empty();
    let a = with_some(none, "type"@, Some(Json::String(kind)));
    let b = with_some(a, "url"@, Some(Json::String(url)));
    let c = with_some(b, "headers"@, if_any(headers, texts_object(headers)));
    reveal_strlit("type");
    reveal_strlit("url");
    reveal_strlit("headers");
    reveal_strlit("sse");
    reveal_strlit("stdio");
    reveal_strlit("streamable-http");
    assert("type"@.len() == 4 && "url"@.len() == 3 && "headers"@.len() == 7);
    assert("sse"@.len() == 3 && "stdio"@.len() == 5 && "streamable-http"@.len() == 15);
    assert(server_json(server) == object(c));
    lemma_with_some(none, "type"@, Some(Json::String(kind)));
    lemma_with_some(a, "url"@, Some(Json::String(url)));
    lemma_with_some(b, "headers"@, if_any(headers, texts_object(headers)));
    lemma_canonical_object(c);
    let all = written_entries(c);
    lemma_no_entries("type"@);
    lemma_no_entries("url"@);
    lemma_no_entries("headers"@);
    assert forall|i: int| 0 <= i < all.len() implies {
        let key = (#[trigger] all[i]).0;
        key == "type"@ || key == "url"@ || key == "headers"@
    } by {
        lemma_no_entries(all[i].0);
        assert(lookup(collected(c), all[i].0) is Some);
    }
    lemma_http_keys(all, 0);
    reveal_with_fuel(canonical, 2);
    assert(lookup(all, "type"@) == Some(Json::String(kind)));
    assert(lookup(all, "url"@) == Some(Json::String(url)));
    if url.len() == 0 {
        lemma_empty_url();
        assert(url =~= Seq::empty());
    }
    lemma_table_field(headers, name, "headers"@);
    lemma_headers_are_taken(headers, 0, name);
}

proof fn lemma_empty_url()
    ensures
        url_fault(Seq::empty()) is Some,
{
    let none = Seq::<char>::empty();
    lemma_find_from(none, "://"@, 0);
    reveal_strlit("://");
    assert(find(none, "://"@) is None);
}

/// The servers of a document of published servers.
pub open spec fn written_servers(all: Seq<(Seq<char>, Server)>) -> Seq<(Seq<char>, Json)> {
    all.map_values(|e: (Seq<char>, Server)| (e.0, canonical(server_json(e.1))))
}

/// A document of published servers lists them in their order.
pub proof fn law_published_servers_are_listed(all: Seq<(Seq<char>, Server)>, value: Value)
    requires
        sorted(all),
        value@ == servers_json(all),
    ensures
        listed_servers(Some(Document::Parsed(value)), AGENT_PLUGIN_SCHEMA@) == Ok::<
            Seq<(Seq<char>, Json)>,
            Finding,
        >(written_servers(all)),
{
    let inner = all.map_values(|e: (Seq<char>, Server)| (e.0, server_json(e.1)));
    let schema = Json::String("https://agent-plugins.org/schemas/1.0.0/mcp.schema.json"@);
    let none = Seq::<(Seq<char>, Json)>::empty();
    let a = with_some(none, "$schema"@, Some(schema));
    let b = with_some(a, "mcpServers"@, Some(object(inner)));
    reveal_strlit("$schema");
    reveal_strlit("mcpServers");
    assert("$schema"@.len() == 7 && "mcpServers"@.len() == 10);
    assert(servers_json(all) == canonical(object(b)));
    lemma_with_some(none, "$schema"@, Some(schema));
    lemma_with_some(a, "mcpServers"@, Some(object(inner)));
    lemma_canonical_object(b);
    let written = written_entries(b);
    lemma_collected_push(none, ("$schema"@, schema));
    lemma_collected_push(a, ("mcpServers"@, object(inner)));
    table::lemma_position_from(keys(collected(none)), "$schema"@, 0);
    table::lemma_position_from(keys(collected(a)), "mcpServers"@, 0);
    assert(collected(a) =~= seq![("$schema"@, schema)]);
    assert(keys(collected(a))[0] == "$schema"@);
    assert(collected(b).len() == 2);
    table::lemma_ordered(canonical_entries(collected(b)));
    assert(written.len() == 2);
    reveal_with_fuel(canonical, 2);
    assert(lookup(written, "$schema"@) == Some(schema));
    assert forall|i: int, j: int| 0 <= i < j < inner.len() implies before(
        #[trigger] inner[i].0,
        #[trigger] inner[j].0,
    ) by {
        assert(inner[i].0 == all[i].0 && inner[j].0 == all[j].0);
    }
    lemma_collected_sorted(inner);
    lemma_canonical(Seq::empty(), inner);
    let made = canonical_entries(inner);
    assert(made =~= written_servers(all));
    assert forall|i: int, j: int| 0 <= i < j < made.len() implies !before(
        #[trigger] made[j].0,
        #[trigger] made[i].0,
    ) by {
        assert(before(inner[i].0, inner[j].0));
        lemma_before_asymmetric(inner[i].0, inner[j].0);
    }
    table::lemma_in_order_is_ordered(made);
    assert(lookup(written, "mcpServers"@) == Some(Json::Object(written_servers(all))));
}

/// The configuration that a binding was made from.
pub open spec fn configuration(b: Binding) -> Server {
    match b {
        Binding::Stdio(s) => Server::Stdio {
            command: s.command,
            args: s.args,
            env: s.env,
            cwd: s.cwd,
        },
        Binding::StreamableHttp(h) => Server::Remote {
            legacy: false,
            url: h.url,
            headers: h.headers,
        },
        Binding::Sse(h) => Server::Remote { legacy: true, url: h.url, headers: h.headers },
    }
}

/// Whether a server that the publisher takes can be used where it is loaded: its
/// transport is supported, what it names is found in the package, and its URL and its
/// headers are ones that a client can use.
pub open spec fn usable(
    name: Seq<char>,
    server: Server,
    root: Seq<char>,
    data: Seq<char>,
    supported: Seq<AgentPluginMcpTransport>,
    paths: ServerPaths,
) -> bool {
    &&& server_fault(server) is None
    &&& match server {
        Server::Stdio { command, env, cwd, .. } => {
            &&& sorted(env)
            &&& supported.contains(AgentPluginMcpTransport::Stdio)
            &&& "./"@.is_prefix_of(command) ==> contained_file(root, paths.command) is Ok
            &&& cwd matches Some(cwd) ==> cwd_result(root, data, name, cwd, paths.cwd) is Ok
        },
        Server::Remote { legacy, url, headers } => {
            &&& sorted(headers)
            &&& supported.contains(
                if legacy {
                    AgentPluginMcpTransport::Sse
                } else {
                    AgentPluginMcpTransport::StreamableHttp
                },
            )
            &&& url_finding(name, parsed_url(url)) is None
            &&& forall|i: int|
                0 <= i < headers.len() ==> http_name((#[trigger] headers[i]).0) && http_value(
                    headers[i].1,
                )
        },
    }
}

proof fn lemma_usable_server(
    name: Seq<char>,
    server: Server,
    root: Seq<char>,
    data: Seq<char>,
    supported: Seq<AgentPluginMcpTransport>,
    paths: ServerPaths,
)
    requires
        usable(name, server, root, data, supported, paths),
    ensures
        server_outcome(name, canonical(server_json(server)), root, data, supported, paths)
            matches Ok(b) && configuration(b) == server,
{
    match server {
        Server::Stdio { .. } => {
            law_published_stdio_server_is_read(name, server, root, data, paths);
        },
        Server::Remote { .. } => {
            law_published_remote_server_is_read(name, server, root, data, paths);
        },
    }
}

/// The configurations of bindings.
pub open spec fn configurations(v: Seq<(Seq<char>, Binding)>) -> Seq<(Seq<char>, Server)> {
    v.map_values(|e: (Seq<char>, Binding)| (e.0, configuration(e.1)))
}

proof fn lemma_servers_are_loaded(
    all: Seq<(Seq<char>, Server)>,
    root: Seq<char>,
    data: Seq<char>,
    supported: Seq<AgentPluginMcpTransport>,
    paths: Seq<ServerPaths>,
)
    requires
        sorted(all),
        forall|i: int|
            0 <= i < all.len() ==> usable(
                (#[trigger] all[i]).0,
                all[i].1,
                root,
                data,
                supported,
                paths[i],
            ),
    ensures
        configurations(bindings(written_servers(all), root, data, supported, paths)) == all,
        binding_findings(written_servers(all), root, data, supported, paths).len() == 0,
    decreases all.len(),
{
    let listed = written_servers(all);
    let made = bindings(listed, root, data, supported, paths);
    if all.len() > 0 {
        let n = all.len() - 1;
        let head = all.drop_last();
        assert forall|i: int, j: int| 0 <= i < j < head.len() implies before(
            #[trigger] head[i].0,
            #[trigger] head[j].0,
        ) by {
            assert(head[i] == all[i] && head[j] == all[j]);
        }
        assert forall|i: int| 0 <= i < head.len() implies usable(
            (#[trigger] head[i]).0,
            head[i].1,
            root,
            data,
            supported,
            paths[i],
        ) by {
            assert(head[i] == all[i]);
        }
        lemma_servers_are_loaded(head, root, data, supported, paths);
        assert(listed.drop_last() =~= written_servers(head));
        assert(listed[n] == (all[n].0, canonical(server_json(all[n].1))));
        lemma_usable_server(all[n].0, all[n].1, root, data, supported, paths[n]);
        let before_it = bindings(written_servers(head), root, data, supported, paths);
        let b = server_outcome(all[n].0, listed[n].1, root, data, supported, paths[n])->Ok_0;
        assert forall|i: int| 0 <= i < before_it.len() implies before(
            (#[trigger] before_it[i]).0,
            all[n].0,
        ) by {
            assert(configurations(before_it)[i] == head[i]);
            assert(before(all[i].0, all[n].0));
        }
        lemma_inserted_last(before_it, all[n].0, b);
        assert(configurations(made) =~= all) by {
            assert forall|i: int| 0 <= i < all.len() implies configurations(made)[i] == all[i] by {
                if i < n {
                    assert(configurations(before_it)[i] == head[i]);
                }
            }
            assert(configurations(before_it).len() == head.len());
        }
    } else {
        assert(configurations(made) =~= all);
    }
}

/// What is published is loaded: of a document of published servers that can all be
/// used, every server is bound as it was given, and nothing is found wrong with it.
pub proof fn law_published_servers_are_loaded(
    all: Seq<(Seq<char>, Server)>,
    value: Value,
    root: Seq<char>,
    options: AgentPluginLoadOptions,
    paths: Seq<ServerPaths>,
)
    requires
        sorted(all),
        value@ == servers_json(all),
        forall|i: int|
            0 <= i < all.len() ==> usable(
                (#[trigger] all[i]).0,
                all[i].1,
                root,
                normalized(options.plugin_data_root@),
                options.supported_mcp_transports@,
                paths[i],
            ),
    ensures
        configurations(
            loaded_bindings(
                Some(Document::Parsed(value)),
                AGENT_PLUGIN_SCHEMA@,
                root,
                options,
                paths,
            ),
        ) == all,
        servers_findings(
            Some(Document::Parsed(value)),
            AGENT_PLUGIN_SCHEMA@,
            root,
            options,
            paths,
        ).len() == 0,
{
    law_published_servers_are_listed(all, value);
    lemma_servers_are_loaded(
        all,
        root,
        normalized(options.plugin_data_root@),
        options.supported_mcp_transports@,
        paths,
    );
}

} // verus!
