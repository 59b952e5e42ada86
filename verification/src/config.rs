//! Config files.
//!
//! A config file is a JSON object that gives default option values for
//! commands. Its structure mirrors the command tree:
//!
//! ```json
//! {
//!   "commands": {
//!     "deploy": {
//!       "options": {
//!         "environment": "staging"
//!       }
//!     }
//!   }
//! }
//! ```

use vstd::prelude::*;
use crate::table::{lemma_lookup_stored, lookup, position_from, stored};
use crate::text::{
    cat, cat3, chars_of, ends_with, join, opt_str, same, split, split_at_char, starts_with,
    strip_prefix, texts, trim_leading, trim_start_char,
};
use crate::value::{entries, get, lemma_object_view, tabled, to_table, Json, Value};

verus! {

/// A path below a directory, or the path itself where it is absolute.
pub open spec fn joined(base: Seq<char>, path: Seq<char>) -> Seq<char> {
    if "/"@.is_prefix_of(path) {
        path
    } else if base.len() == 0 || "/"@.is_suffix_of(base) {
        base + path
    } else {
        base + "/"@ + path
    }
}

/// Gives a path below a directory, or the path itself where it is absolute.
pub fn join_path(base: &str, path: &str) -> (r: String)
    ensures
        r@ == joined(base@, path@),
{
    if starts_with(path, "/") {
        path.to_string()
    } else if chars_of(base).len() == 0 || ends_with(base, "/") {
        cat(base, path)
    } else {
        cat3(base, "/", path)
    }
}

/// Whether a path begins at the home directory.
pub open spec fn from_home(path: Seq<char>) -> bool {
    path == "~"@ || "~/"@.is_prefix_of(path)
}

/// The file that a path means: one that begins with `~` is below the home directory,
/// and a relative path is one below the current directory. Either directory may be
/// unknown, and the path is then left as it is.
pub open spec fn resolved_path(
    path: Seq<char>,
    home: Option<Seq<char>>,
    cwd: Option<Seq<char>>,
) -> Seq<char> {
    if home is Some && from_home(path) {
        joined(home->0, trim_start_char(path.skip(1), '/'))
    } else {
        match cwd {
            Some(dir) => joined(dir, path),
            None => path,
        }
    }
}

proof fn lemma_tilde(path: Seq<char>)
    requires
        from_home(path),
    ensures
        "~"@.len() == 1,
        "~"@.is_prefix_of(path),
{
    reveal_strlit("~");
    reveal_strlit("~/");
    if "~/"@.is_prefix_of(path) {
        assert(path.subrange(0, 2)[0] == path[0]);
    }
    assert(path.subrange(0, 1) =~= "~"@);
}

/// Resolves a file path, expanding `~` to the user's home directory.
pub fn resolve_path(file_path: &str, home: Option<&str>, cwd: Option<&str>) -> (r: String)
    ensures
        r@ == resolved_path(file_path@, opt_str(home), opt_str(cwd)),
{
    if let Some(dir) = home {
        if same(file_path, "~") || starts_with(file_path, "~/") {
            proof {
                lemma_tilde(file_path@);
            }
            if let Some(rest) = strip_prefix(file_path, "~") {
                return join_path(dir, trim_leading(rest.as_str(), '/').as_str());
            }
        }
    }
    match cwd {
        Some(dir) => join_path(dir, file_path),
        None => file_path.to_string(),
    }
}

/// The first position at which a file was found.
pub open spec fn first_found(found: Seq<bool>, from: nat) -> Option<nat>
    decreases found.len() - from,
{
    if from >= found.len() {
        None
    } else if found[from as int] {
        Some(from)
    } else {
        first_found(found, from + 1)
    }
}

/// Resolves the config file path from an explicit flag value or default search
/// locations.
///
/// If `flag_value` is `Some`, it is the file. Otherwise it is the first of
/// `files` that exists; `found` says of each whether the file that
/// [`resolve_path`] gives for it exists.
///
/// Returns `None` if no config file is found.
pub fn resolve_config_path(
    flag_value: Option<&str>,
    files: &Vec<String>,
    found: &Vec<bool>,
    home: Option<&str>,
    cwd: Option<&str>,
) -> (r: Option<String>)
    requires
        flag_value is None ==> found@.len() == files@.len(),
    ensures
        crate::text::opt_text(r) == match flag_value {
            Some(path) => Some(resolved_path(path@, opt_str(home), opt_str(cwd))),
            None => match first_found(found@, 0) {
                Some(i) => Some(resolved_path(files@[i as int]@, opt_str(home), opt_str(cwd))),
                None => None,
            },
        },
{
    if let Some(path) = flag_value {
        return Some(resolve_path(path, home, cwd));
    }
    let mut i: usize = 0;
    while i < files.len()
        invariant
            i <= files@.len(),
            flag_value is None,
            found@.len() == files@.len(),
            first_found(found@, 0) == first_found(found@, i as nat),
        decreases files.len() - i,
    {
        if found[i] {
            return Some(resolve_path(files[i].as_str(), home, cwd));
        }
        i += 1;
    }
    None
}

/// Takes the entries out of a parsed config file, which has to be an object.
/// `path` is the path of the file.
pub fn config_entries(parsed: Value, path: &str) -> (r: Result<Vec<(String, Value)>, String>)
    ensures
        match r {
            Ok(fields) => parsed@ matches Json::Object(all) && entries(fields@) == tabled(all),
            Err(message) => !(parsed is Object) && message@
                == "Invalid config file: expected a top-level object in '"@ + path@ + "'"@,
        },
{
    broadcast use lemma_object_view;

    match parsed {
        Value::Object(fields) => Ok(to_table(&fields)),
        _ => Err(cat3("Invalid config file: expected a top-level object in '", path, "'")),
    }
}

/// What is wrong with a part of a config file.
pub open spec fn invalid_part(part: Seq<char>, path: Seq<char>) -> Seq<char> {
    "Invalid config "@ + part + " for '"@ + path + "': expected an object"@
}

fn invalid(part: &str, path: &str) -> (r: String)
    ensures
        r@ == invalid_part(part@, path@),
{
    let mut out = cat3("Invalid config ", part, " for '");
    out.append(path);
    out.append("': expected an object");
    out
}

/// The default options that a section gives, where it gives any.
pub open spec fn section_options(section: Json, path: Seq<char>) -> Result<
    Option<Seq<(Seq<char>, Json)>>,
    Seq<char>,
> {
    match section {
        Json::Object(fields) => match lookup(fields, "options"@) {
            Some(Json::Object(options)) => if options.len() == 0 {
                Ok(None)
            } else {
                Ok(Some(tabled(options)))
            },
            Some(_) => Err(invalid_part("'options'"@, path)),
            None => Ok(None),
        },
        _ => Err(invalid_part("section"@, path)),
    }
}

/// The default options that a config gives for the command that the names from
/// `from` on lead to.
pub open spec fn section_at(
    section: Json,
    names: Seq<Seq<char>>,
    from: nat,
    path: Seq<char>,
) -> Result<Option<Seq<(Seq<char>, Json)>>, Seq<char>>
    decreases names.len() - from,
{
    if from >= names.len() {
        section_options(section, path)
    } else {
        match section {
            Json::Object(fields) => match lookup(fields, "commands"@) {
                Some(Json::Object(commands)) => match lookup(commands, names[from as int]) {
                    Some(next) => section_at(next, names, from + 1, path),
                    None => Ok(None),
                },
                Some(_) => Err(invalid_part("'commands'"@, path)),
                None => Ok(None),
            },
            _ => Err(invalid_part("section"@, path)),
        }
    }
}

/// The names on the way to a command's section: none for the command line's own
/// command.
pub open spec fn section_names(cli: Seq<char>, path: Seq<char>) -> Seq<Seq<char>> {
    if path == cli {
        Seq::empty()
    } else {
        split(path, ' ')
    }
}

/// What a result about options means.
pub open spec fn section_result(
    r: Result<Option<Vec<(String, Value)>>, String>,
) -> Result<Option<Seq<(Seq<char>, Json)>>, Seq<char>> {
    match r {
        Ok(Some(v)) => Ok(Some(entries(v@))),
        Ok(None) => Ok(None),
        Err(e) => Err(e@),
    }
}

fn options_of(section: &Value, path: &str) -> (r: Result<Option<Vec<(String, Value)>>, String>)
    ensures
        section_result(r) == section_options(section@, path@),
{
    broadcast use lemma_object_view;

    let fields = match section {
        Value::Object(fields) => fields,
        _ => {
            return Err(invalid("section", path));
        },
    };
    match get(fields, "options") {
        Some(options) => match options {
            Value::Object(map) => {
                if map.len() == 0 {
                    Ok(None)
                } else {
                    Ok(Some(to_table(map)))
                }
            },
            _ => Err(invalid("'options'", path)),
        },
        None => Ok(None),
    }
}

/// Extracts command-specific option defaults from a parsed config tree.
///
/// Walks the nested config structure following the command path segments.
/// For a command path like `"users list"`, looks for:
///
/// ```json
/// { "commands": { "users": { "commands": { "list": { "options": { ... } } } } } }
/// ```
///
/// Returns `None` if the command section or its `options` key is not found.
pub fn extract_command_section(config: &Value, cli_name: &str, command_path: &str) -> (r: Result<
    Option<Vec<(String, Value)>>,
    String,
>)
    ensures
        section_result(r) == section_at(
            config@,
            section_names(cli_name@, command_path@),
            0,
            command_path@,
        ),
{
    let names = if same(command_path, cli_name) {
        Vec::new()
    } else {
        split_at_char(command_path, ' ')
    };
    let ghost all = section_names(cli_name@, command_path@);
    assert(texts(names@) =~= all);
    let mut node = config;
    let mut i: usize = 0;
    while i < names.len()
        invariant
            i <= names@.len(),
            all == texts(names@),
            all == section_names(cli_name@, command_path@),
            section_at(config@, all, 0, command_path@) == section_at(
                node@,
                all,
                i as nat,
                command_path@,
            ),
        decreases names.len() - i,
    {
        broadcast use lemma_object_view;

        assert(all[i as int] == names@[i as int]@);
        let fields = match node {
            Value::Object(fields) => fields,
            _ => {
                return Err(invalid("section", command_path));
            },
        };
        let commands = match get(fields, "commands") {
            Some(commands) => commands,
            None => {
                return Ok(None);
            },
        };
        let inner = match commands {
            Value::Object(inner) => inner,
            _ => {
                return Err(invalid("'commands'", command_path));
            },
        };
        match get(inner, names[i].as_str()) {
            Some(next) => {
                node = next;
            },
            None => {
                return Ok(None);
            },
        }
        i += 1;
    }
    options_of(node, command_path)
}

/// Decides on the default options of a command. `loaded` is the config file, or
/// the reason why it could not be loaded, which counts only where the file was
/// given on the command line.
pub fn command_defaults(
    loaded: Result<Value, String>,
    explicit: bool,
    cli_name: &str,
    command_path: &str,
) -> (r: Result<Option<Vec<(String, Value)>>, String>)
    ensures
        match loaded {
            Ok(config) => section_result(r) == section_at(
                config@,
                section_names(cli_name@, command_path@),
                0,
                command_path@,
            ),
            Err(e) => if explicit {
                r == Err::<Option<Vec<(String, Value)>>, String>(e)
            } else {
                r matches Ok(None)
            },
        },
{
    match loaded {
        Ok(config) => extract_command_section(&config, cli_name, command_path),
        Err(e) => {
            if explicit {
                Err(e)
            } else {
                Ok(None)
            }
        },
    }
}

// ---------------------------------------------------------------------------
// Laws
// ---------------------------------------------------------------------------

/// The config that gives options for the command that the names lead to, and
/// nothing else.
pub open spec fn nested(names: Seq<Seq<char>>, from: nat, options: Seq<(Seq<char>, Json)>) -> Json
    decreases names.len() - from,
{
    if from >= names.len() {
        Json::Object(seq![("options"@, Json::Object(options))])
    } else {
        Json::Object(
            seq![
                (
                    "commands"@,
                    Json::Object(seq![(names[from as int], nested(names, from + 1, options))]),
                ),
            ],
        )
    }
}

/// Options written under the names of a command are the ones that the command
/// gets, as a table.
pub proof fn law_written_options_are_read(
    names: Seq<Seq<char>>,
    from: nat,
    options: Seq<(Seq<char>, Json)>,
    path: Seq<char>,
)
    requires
        options.len() > 0,
    ensures
        section_at(nested(names, from, options), names, from, path) == Ok::<
            Option<Seq<(Seq<char>, Json)>>,
            Seq<char>,
        >(Some(tabled(options))),
    decreases names.len() - from,
{
    if from < names.len() {
        law_written_options_are_read(names, from + 1, options, path);
        lemma_single("commands"@, Json::Object(
            seq![(names[from as int], nested(names, from + 1, options))],
        ));
        lemma_single(names[from as int], nested(names, from + 1, options));
    } else {
        lemma_single("options"@, Json::Object(options));
    }
}

/// The only entry of a table is found under its key.
proof fn lemma_single(key: Seq<char>, value: Json)
    ensures
        lookup(seq![(key, value)], key) == Some(value),
{
    let table = seq![(key, value)];
    assert(crate::table::keys(table)[0] == key);
    assert(position_from(crate::table::keys(table), key, 0) == Some(0nat));
}

/// What is left of a path without the slashes at its start is not absolute.
proof fn lemma_trimmed(path: Seq<char>)
    ensures
        !"/"@.is_prefix_of(trim_start_char(path, '/')),
    decreases path.len(),
{
    reveal_strlit("/");
    if path.len() > 0 && path[0] == '/' {
        lemma_trimmed(path.skip(1));
    } else if "/"@.is_prefix_of(path) {
        assert(path.subrange(0, 1)[0] == '/');
    }
}

/// A path that begins with `~` is below the home directory, however many slashes
/// follow.
pub proof fn law_home_paths_are_below_home(
    path: Seq<char>,
    home: Seq<char>,
    cwd: Option<Seq<char>>,
)
    requires
        from_home(path),
    ensures
        home.is_prefix_of(resolved_path(path, Some(home), cwd)),
{
    let rest = trim_start_char(path.skip(1), '/');
    lemma_trimmed(path.skip(1));
    assert((home + rest).subrange(0, home.len() as int) =~= home);
    assert((home + "/"@ + rest).subrange(0, home.len() as int) =~= home);
}

/// An absolute path is the file it names, whatever the directories.
pub proof fn law_absolute_paths_are_kept(
    path: Seq<char>,
    home: Option<Seq<char>>,
    cwd: Option<Seq<char>>,
)
    requires
        "/"@.is_prefix_of(path),
    ensures
        resolved_path(path, home, cwd) == path,
{
    reveal_strlit("/");
    reveal_strlit("~");
    reveal_strlit("~/");
    assert(path.subrange(0, 1)[0] == '/');
    if "~/"@.is_prefix_of(path) {
        assert(path.subrange(0, 2)[0] == '~');
    }
    if path == "~"@ {
        assert(path[0] == '~');
    }
}

/// A section that is no object is refused, and so are commands or options that are none,
/// with a message that names the command. What is not there gives nothing.
pub proof fn law_broken_sections_are_refused(
    section: Json,
    names: Seq<Seq<char>>,
    from: nat,
    path: Seq<char>,
)
    ensures
        !(section is Object) ==> (section_at(section, names, from, path) matches Err(message)
            && message == "Invalid config section for '"@ + path + "': expected an object"@),
        from < names.len() ==> (section matches Json::Object(fields) ==> (lookup(
            fields,
            "commands"@,
        ) matches Some(commands) ==> (!(commands is Object) ==> (section_at(
            section,
            names,
            from,
            path,
        ) matches Err(message) && message == "Invalid config 'commands' for '"@ + path
            + "': expected an object"@)))),
        from >= names.len() ==> (section matches Json::Object(fields) ==> (lookup(
            fields,
            "options"@,
        ) matches Some(options) ==> (!(options is Object) ==> (section_at(
            section,
            names,
            from,
            path,
        ) matches Err(message) && message == "Invalid config 'options' for '"@ + path
            + "': expected an object"@)))),
        from < names.len() ==> (section matches Json::Object(fields) ==> (lookup(
            fields,
            "commands"@,
        ) is None ==> section_at(section, names, from, path) == Ok::<
            Option<Seq<(Seq<char>, Json)>>,
            Seq<char>,
        >(None))),
        from >= names.len() ==> (section matches Json::Object(fields) ==> (lookup(
            fields,
            "options"@,
        ) is None ==> section_at(section, names, from, path) == Ok::<
            Option<Seq<(Seq<char>, Json)>>,
            Seq<char>,
        >(None))),
{
    lemma_part_texts();
}

proof fn lemma_part_texts()
    ensures
        "Invalid config "@ + "section"@ + " for '"@ == "Invalid config section for '"@,
        "Invalid config "@ + "'commands'"@ + " for '"@ == "Invalid config 'commands' for '"@,
        "Invalid config "@ + "'options'"@ + " for '"@ == "Invalid config 'options' for '"@,
{
    reveal_strlit("Invalid config ");
    reveal_strlit("section");
    reveal_strlit("'commands'");
    reveal_strlit("'options'");
    reveal_strlit(" for '");
    reveal_strlit("Invalid config section for '");
    reveal_strlit("Invalid config 'commands' for '");
    reveal_strlit("Invalid config 'options' for '");
    assert("Invalid config "@ + "section"@ + " for '"@ =~= "Invalid config section for '"@);
    assert("Invalid config "@ + "'commands'"@ + " for '"@ =~= "Invalid config 'commands' for '"@);
    assert("Invalid config "@ + "'options'"@ + " for '"@ =~= "Invalid config 'options' for '"@);
}

/// Only the section of the command itself counts: the commands beside it may hold
/// anything.
pub proof fn law_other_sections_do_not_matter(
    fields: Seq<(Seq<char>, Json)>,
    commands: Seq<(Seq<char>, Json)>,
    names: Seq<Seq<char>>,
    from: nat,
    path: Seq<char>,
    other: Seq<char>,
    value: Json,
)
    requires
        from < names.len(),
        other != names[from as int],
    ensures
        section_at(
            Json::Object(
                stored(fields, "commands"@, Json::Object(stored(commands, other, value))),
            ),
            names,
            from,
            path,
        ) == section_at(
            Json::Object(stored(fields, "commands"@, Json::Object(commands))),
            names,
            from,
            path,
        ),
{
    lemma_lookup_stored(
        fields,
        "commands"@,
        Json::Object(stored(commands, other, value)),
        "commands"@,
    );
    lemma_lookup_stored(fields, "commands"@, Json::Object(commands), "commands"@);
    lemma_lookup_stored(commands, other, value, names[from as int]);
}

/// The command line itself has the outermost section, and any other command the one
/// below the names of its path.
pub proof fn law_sections_follow_the_path(cli: Seq<char>, path: Seq<char>)
    ensures
        section_names(cli, cli).len() == 0,
        path != cli ==> join(section_names(cli, path), " "@) == path,
{
    reveal_strlit(" ");
    assert(" "@ =~= seq![' ']);
    crate::text::lemma_join_split(path, ' ');
}

/// A path that is neither absolute nor below the home directory stands below the working
/// directory.
pub proof fn law_relative_paths_are_below_the_directory(
    path: Seq<char>,
    home: Option<Seq<char>>,
    cwd: Seq<char>,
)
    requires
        !from_home(path) || home is None,
        !"/"@.is_prefix_of(path),
        cwd.len() > 0,
    ensures
        !"/"@.is_suffix_of(cwd) ==> resolved_path(path, home, Some(cwd)) == cwd + "/"@ + path,
        "/"@.is_suffix_of(cwd) ==> resolved_path(path, home, Some(cwd)) == cwd + path,
        resolved_path(path, home, None) == path,
{
}

/// The file that is taken is the first that is there.
pub proof fn law_first_file_is_taken(found: Seq<bool>, from: nat)
    ensures
        first_found(found, from) matches Some(i) ==> from <= i < found.len() && found[i as int] && (
        forall|j: int| from <= j < i ==> !found[j]),
        first_found(found, from) is None ==> forall|j: int| from <= j < found.len() ==> !found[j],
    decreases found.len() - from,
{
    if from < found.len() && !found[from as int] {
        law_first_file_is_taken(found, from + 1);
    }
}

/// Options that are there are given, and an empty list of them counts as none.
pub proof fn law_options_of_a_section_are_given(
    fields: Seq<(Seq<char>, Json)>,
    options: Seq<(Seq<char>, Json)>,
    path: Seq<char>,
    key: Seq<char>,
)
    requires
        lookup(fields, "options"@) == Some(Json::Object(options)),
    ensures
        options.len() == 0 ==> section_options(Json::Object(fields), path) == Ok::<
            Option<Seq<(Seq<char>, Json)>>,
            Seq<char>,
        >(None),
        options.len() > 0 ==> (section_options(Json::Object(fields), path) matches Ok(Some(given))
            && forall|i: int|
            0 <= i < options.len() && (#[trigger] options[i]).0 == key && (forall|j: int|
                i < j < options.len() ==> (#[trigger] options[j]).0 != key) ==> lookup(given, key)
                == Some(options[i].1)),
{
    crate::value::law_last_entry_is_tabled(options, key);
}

} // verus!
