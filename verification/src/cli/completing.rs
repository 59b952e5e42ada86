//! Completions for the command tree of a command-line interface.

use vstd::prelude::*;
use crate::cli::builtins::{all_of, builtin_commands, builtins, subs, Builtin, BuiltinCommand, Sub};
use crate::cli::tree::{holds_text, CommandEntry};
use crate::command;
use crate::completions;
use crate::completions::{
    choices, complete, completed, dashed, formatted, lemma_entry_view, nodes, script, shell_named,
    word_at, words_before, Candidate, Choice, Leaf, Node, Shell,
};
use crate::schema::{append_fields, copy_fields, fields, Field, FieldMeta};
use crate::table;
use crate::table::{inserted, keyed, lookup};
use crate::text::{
    copy_opt, join, join_texts, opt_str, opt_text, parse_usize, parsed_up_to, same, starts_with,
    texts,
};

verus! {

/// A table with the entries of another stored in it.
pub open spec fn united(base: Seq<(Seq<char>, char)>, more: Seq<(Seq<char>, char)>) -> Seq<
    (Seq<char>, char),
>
    decreases more.len(),
{
    if more.len() == 0 {
        base
    } else {
        inserted(united(base, more.drop_last()), more.last().0, more.last().1)
    }
}

/// Stores the entries of a table in another.
pub fn unite(base: &mut Vec<(String, char)>, more: &Vec<(String, char)>)
    ensures
        keyed(final(base)@) == united(keyed(old(base)@), keyed(more@)),
{
    let ghost start = keyed(base@);
    let ghost all = keyed(more@);
    let mut i: usize = 0;
    while i < more.len()
        invariant
            i <= more@.len(),
            all == keyed(more@),
            keyed(base@) == united(start, all.take(i as int)),
        decreases more.len() - i,
    {
        assert(all.take(i + 1).drop_last() =~= all.take(i as int));
        assert(all[i as int] == (more@[i as int].0@, more@[i as int].1));
        table::insert(base, more[i].0.clone(), more[i].1);
        i += 1;
    }
    assert(all.take(all.len() as int) =~= all);
}

/// Copies a table of aliases.
pub fn copy_aliases(v: &Vec<(String, char)>) -> (r: Vec<(String, char)>)
    ensures
        keyed(r@) == keyed(v@),
{
    let mut out: Vec<(String, char)> = Vec::new();
    let mut i: usize = 0;
    while i < v.len()
        invariant
            i <= v@.len(),
            keyed(out@) == keyed(v@).take(i as int),
        decreases v.len() - i,
    {
        let ghost was = keyed(out@);
        let ghost next = keyed(v@)[i as int];
        out.push((v[i].0.clone(), v[i].1));
        assert(keyed(out@) =~= was.push(next));
        assert(keyed(v@).take(i + 1) =~= keyed(v@).take(i as int).push(next));
        i += 1;
    }
    assert(keyed(v@).take(v@.len() as int) =~= keyed(v@));
    out
}

/// What completions know of an entry, and nothing of a gateway.
pub open spec fn completion_node(
    entry: CommandEntry,
    globals: Seq<Field>,
    aliases: Seq<(Seq<char>, char)>,
) -> Option<Node>
    decreases entry, 0nat,
{
    match entry {
        CommandEntry::Leaf(def) => Some(
            Node {
                is_group: false,
                description: opt_text(def.description),
                commands: Seq::empty(),
                options: fields(def.options_fields@) + globals,
                aliases: united(keyed(def.aliases@), aliases),
            },
        ),
        CommandEntry::Group { description, commands, .. } => Some(
            Node {
                is_group: true,
                description: opt_text(description),
                commands: completion_nodes(commands@, globals, aliases),
                options: globals,
                aliases,
            },
        ),
        CommandEntry::FetchGateway { .. } => None,
    }
}

/// What completions know of the entries of one level.
pub open spec fn completion_nodes(
    commands: Seq<(String, CommandEntry)>,
    globals: Seq<Field>,
    aliases: Seq<(Seq<char>, char)>,
) -> Seq<(Seq<char>, Node)>
    decreases commands, commands.len(),
{
    if commands.len() == 0 {
        Seq::empty()
    } else {
        let head = completion_nodes(commands.drop_last(), globals, aliases);
        match completion_node(commands.last().1, globals, aliases) {
            Some(node) => head.push((commands.last().0@, node)),
            None => head,
        }
    }
}

/// Converts the command tree into what completions know of it.
pub fn convert_to_completion_commands(
    commands: &Vec<(String, CommandEntry)>,
    globals_fields: &Vec<FieldMeta>,
    global_aliases: &Vec<(String, char)>,
) -> (r: Vec<(String, completions::CommandEntry)>)
    ensures
        nodes(r@) == completion_nodes(commands@, fields(globals_fields@), keyed(global_aliases@)),
    decreases *commands,
{
    let ghost globals = fields(globals_fields@);
    let ghost aliases = keyed(global_aliases@);
    let mut out: Vec<(String, completions::CommandEntry)> = Vec::new();
    let mut i: usize = 0;
    assert(nodes(out@) =~= completion_nodes(commands@.take(0), globals, aliases));
    while i < commands.len()
        invariant
            i <= commands@.len(),
            globals == fields(globals_fields@),
            aliases == keyed(global_aliases@),
            nodes(out@) == completion_nodes(commands@.take(i as int), globals, aliases),
        decreases commands.len() - i,
    {
        let ghost was = nodes(out@);
        assert(commands@.take(i + 1).drop_last() =~= commands@.take(i as int));
        assert(commands@.take(i + 1).last() == commands@[i as int]);
        let name = commands[i].0.clone();
        assert(decreases_to!(*commands => commands@[i as int].1));
        proof {
            reveal_with_fuel(completion_nodes, 2);
            reveal_with_fuel(completion_node, 2);
        }
        match &commands[i].1 {
            CommandEntry::Leaf(def) => {
                let mut options_fields = copy_fields(&def.options_fields);
                append_fields(&mut options_fields, globals_fields);
                let mut all_aliases = copy_aliases(&def.aliases);
                unite(&mut all_aliases, global_aliases);
                let none: Vec<(String, completions::CommandEntry)> = Vec::new();
                assert(nodes(none@) =~= Seq::<(Seq<char>, Node)>::empty());
                let entry = completions::CommandEntry {
                    is_group: false,
                    description: copy_opt(&def.description),
                    commands: none,
                    options_fields,
                    aliases: all_aliases,
                };
                proof {
                    lemma_entry_view(entry);
                }
                let ghost node = (name@, entry@);
                out.push((name, entry));
                assert(nodes(out@) =~= was.push(node));
            },
            CommandEntry::Group { description, commands: sub, .. } => {
                let entry = completions::CommandEntry {
                    is_group: true,
                    description: copy_opt(description),
                    commands: convert_to_completion_commands(sub, globals_fields, global_aliases),
                    options_fields: copy_fields(globals_fields),
                    aliases: copy_aliases(global_aliases),
                };
                proof {
                    lemma_entry_view(entry);
                }
                let ghost node = (name@, entry@);
                out.push((name, entry));
                assert(nodes(out@) =~= was.push(node));
            },
            CommandEntry::FetchGateway { .. } => {},
        }
        i += 1;
    }
    assert(commands@.take(commands@.len() as int) =~= commands@);
    out
}

/// What completions know of the command line itself: the options of its root
/// command and its global options, and nothing where it has neither.
pub open spec fn root_completion(
    root: Option<&command::CommandDef>,
    globals: Seq<Field>,
    aliases: Seq<(Seq<char>, char)>,
) -> Option<Leaf> {
    match root {
        Some(def) => Some(
            Leaf {
                options: fields(def.options_fields@) + globals,
                aliases: united(keyed(def.aliases@), aliases),
            },
        ),
        None => if globals.len() == 0 {
            None
        } else {
            Some(Leaf { options: globals, aliases: united(Seq::empty(), aliases) })
        },
    }
}

/// Makes what completions know of the command line itself.
pub fn completion_root_command(
    root_command: Option<&command::CommandDef>,
    globals_fields: &Vec<FieldMeta>,
    global_aliases: &Vec<(String, char)>,
) -> (r: Option<completions::CommandDef>)
    ensures
        match r {
            Some(def) => root_completion(
                root_command,
                fields(globals_fields@),
                keyed(global_aliases@),
            ) == Some(
                Leaf { options: fields(def.options_fields@), aliases: keyed(def.aliases@) },
            ),
            None => root_completion(
                root_command,
                fields(globals_fields@),
                keyed(global_aliases@),
            ) is None,
        },
{
    match root_command {
        Some(def) => {
            let mut options_fields = copy_fields(&def.options_fields);
            append_fields(&mut options_fields, globals_fields);
            let mut aliases = copy_aliases(&def.aliases);
            unite(&mut aliases, global_aliases);
            Some(completions::CommandDef { options_fields, aliases })
        },
        None => {
            if globals_fields.len() == 0 {
                return None;
            }
            let mut aliases: Vec<(String, char)> = Vec::new();
            assert(keyed(aliases@) =~= Seq::<(Seq<char>, char)>::empty());
            unite(&mut aliases, global_aliases);
            Some(completions::CommandDef { options_fields: copy_fields(globals_fields), aliases })
        },
    }
}

/// The words behind the first `--`, or all of them where there is none.
pub open spec fn after_separator(argv: Seq<Seq<char>>, from: nat) -> Option<nat>
    decreases argv.len() - from,
{
    if from >= argv.len() {
        None
    } else if argv[from as int] == "--"@ {
        Some(from)
    } else {
        after_separator(argv, from + 1)
    }
}

/// The words that are completed.
pub open spec fn completion_words(argv: Seq<Seq<char>>) -> Seq<Seq<char>> {
    match after_separator(argv, 0) {
        Some(i) => argv.skip(i as int + 1),
        None => argv,
    }
}

/// The words among `words` that are no options.
pub open spec fn non_flags(words: Seq<Seq<char>>) -> Seq<Seq<char>>
    decreases words.len(),
{
    if words.len() == 0 {
        Seq::empty()
    } else if dashed(words.last()) {
        non_flags(words.drop_last())
    } else {
        non_flags(words.drop_last()).push(words.last())
    }
}

/// The words before the cursor that are no options, without the name of the
/// binary in front.
pub open spec fn command_words(
    words: Seq<Seq<char>>,
    cli: Seq<char>,
    aliases: Seq<Seq<char>>,
) -> Seq<Seq<char>> {
    let plain = non_flags(words);
    if plain.len() > 0 && (plain[0] == cli || aliases.contains(plain[0])) {
        plain.skip(1)
    } else {
        plain
    }
}

/// Whether one of the candidates has the given value.
pub open spec fn offered(all: Seq<Choice>, value: Seq<char>) -> bool {
    exists|i: int| 0 <= i < all.len() && (#[trigger] all[i]).value == value
}

/// `all` with the built-in commands that `current` begins and that are not
/// offered yet.
pub open spec fn with_builtins(
    all: Seq<Choice>,
    commands: Seq<Builtin>,
    current: Seq<char>,
) -> Seq<Choice>
    decreases commands.len(),
{
    if commands.len() == 0 {
        all
    } else {
        let head = with_builtins(all, commands.drop_last(), current);
        let last = commands.last();
        if current.is_prefix_of(last.name) && !offered(head, last.name) {
            head.push(
                Choice {
                    value: last.name,
                    description: Some(last.description),
                    no_space: last.subcommands.len() > 0,
                },
            )
        } else {
            head
        }
    }
}

/// `all` with the subcommands that `current` begins.
pub open spec fn with_subcommands(
    all: Seq<Choice>,
    commands: Seq<Sub>,
    current: Seq<char>,
) -> Seq<Choice>
    decreases commands.len(),
{
    if commands.len() == 0 {
        all
    } else {
        let head = with_subcommands(all, commands.drop_last(), current);
        let last = commands.last();
        if current.is_prefix_of(last.name) {
            head.push(
                Choice {
                    value: last.name,
                    description: Some(last.description),
                    no_space: false,
                },
            )
        } else {
            head
        }
    }
}

/// The first built-in command of the given name.
pub open spec fn builtin_named(commands: Seq<Builtin>, name: Seq<char>, from: nat) -> Option<nat>
    decreases commands.len() - from,
{
    if from >= commands.len() {
        None
    } else if commands[from as int].name == name {
        Some(from)
    } else {
        builtin_named(commands, name, from + 1)
    }
}

/// `all` with what the built-in commands add to it.
pub open spec fn with_builtin_choices(
    all: Seq<Choice>,
    cli: Seq<char>,
    plain: Seq<Seq<char>>,
    current: Seq<char>,
) -> Seq<Choice> {
    if plain.len() == 0 {
        with_builtins(all, builtins(cli), current)
    } else if plain.len() == 1 {
        match builtin_named(builtins(cli), plain[0], 0) {
            Some(i) => with_subcommands(all, builtins(cli)[i as int].subcommands, current),
            None => all,
        }
    } else {
        all
    }
}

/// The position of the cursor: as given, or at the last word.
pub open spec fn cursor(words: Seq<Seq<char>>, given: Option<Seq<char>>) -> nat {
    match given {
        Some(text) => match parsed_up_to(text, usize::MAX as nat) {
            Some(n) => n,
            None => (words.len() - 1) as nat,
        },
        None => (words.len() - 1) as nat,
    }
}

/// What is answered to a shell that asks for completions.
pub open spec fn completion_answer(
    cli: Seq<char>,
    names: Seq<Seq<char>>,
    commands: Seq<(Seq<char>, Node)>,
    root: Option<Leaf>,
    argv: Seq<Seq<char>>,
    shell: Shell,
    index: Option<Seq<char>>,
) -> Seq<char> {
    let words = completion_words(argv);
    if words.len() == 0 {
        scripts(shell, cli, names)
    } else {
        let at = cursor(words, index);
        formatted(
            shell,
            with_builtin_choices(
                completed(commands, root, words, at),
                cli,
                command_words(words_before(words, at), cli, names),
                word_at(words, at as int),
            ),
        )
    }
}

/// The words that are completed.
fn words_to_complete(argv: &Vec<String>) -> (r: Vec<String>)
    ensures
        texts(r@) == completion_words(texts(argv@)),
{
    let ghost all = texts(argv@);
    let mut i: usize = 0;
    while i < argv.len()
        invariant
            i <= argv@.len(),
            all == texts(argv@),
            after_separator(all, 0) == after_separator(all, i as nat),
        decreases argv.len() - i,
    {
        assert(all[i as int] == argv@[i as int]@);
        if same(argv[i].as_str(), "--") {
            return crate::cli::tree::texts_from(argv, i + 1);
        }
        i += 1;
    }
    assert(all.skip(0) =~= all);
    crate::cli::tree::texts_from(argv, 0)
}

/// The hook scripts for the binary and its other names.
pub open spec fn scripts(shell: Shell, cli: Seq<char>, names: Seq<Seq<char>>) -> Seq<char> {
    join((seq![cli] + names).map_values(|n: Seq<char>| script(shell, n)), "\n"@)
}

/// Gives the hook scripts for the binary and its other names.
pub fn registration(shell: Shell, cli_name: &str, aliases: &Vec<String>) -> (r: String)
    ensures
        r@ == scripts(shell, cli_name@, texts(aliases@)),
{
    let ghost all = (seq![cli_name@] + texts(aliases@)).map_values(
        |n: Seq<char>| script(shell, n),
    );
    let mut scripts: Vec<String> = Vec::new();
    scripts.push(completions::register(shell, cli_name));
    assert(texts(scripts@) =~= all.take(1));
    let mut i: usize = 0;
    while i < aliases.len()
        invariant
            i <= aliases@.len(),
            all == (seq![cli_name@] + texts(aliases@)).map_values(
                |n: Seq<char>| script(shell, n),
            ),
            all.len() == aliases@.len() + 1,
            texts(scripts@) == all.take(i + 1),
        decreases aliases.len() - i,
    {
        let ghost was = texts(scripts@);
        let next = completions::register(shell, aliases[i].as_str());
        assert((seq![cli_name@] + texts(aliases@))[i + 1] == aliases@[i as int]@);
        assert(next@ == all[i + 1]);
        scripts.push(next);
        assert(texts(scripts@) =~= was.push(all[i + 1]));
        assert(all.take(i + 2) =~= all.take(i + 1).push(all[i + 1]));
        i += 1;
    }
    assert(all.take(all.len() as int) =~= all);
    join_texts(&scripts, "\n")
}

/// The words before the cursor that are no options, without the name of the
/// binary in front.
fn plain_words(words: &Vec<String>, at: usize, cli_name: &str, aliases: &Vec<String>) -> (r: Vec<
    String,
>)
    ensures
        texts(r@) == command_words(
            words_before(texts(words@), at as nat),
            cli_name@,
            texts(aliases@),
        ),
{
    let end: usize = if at < words.len() {
        at
    } else {
        words.len()
    };
    let ghost all = words_before(texts(words@), at as nat);
    assert(all =~= texts(words@).take(end as int));
    let mut out: Vec<String> = Vec::new();
    let mut i: usize = 0;
    assert(texts(out@) =~= non_flags(all.take(0)));
    while i < end
        invariant
            i <= end <= words@.len(),
            all == texts(words@).take(end as int),
            texts(out@) == non_flags(all.take(i as int)),
        decreases end - i,
    {
        let ghost was = texts(out@);
        assert(all.take(i + 1).drop_last() =~= all.take(i as int));
        assert(all[i as int] == words@[i as int]@);
        if !starts_with(words[i].as_str(), "-") {
            out.push(words[i].clone());
            assert(texts(out@) =~= was.push(all[i as int]));
        }
        i += 1;
    }
    assert(all.take(all.len() as int) =~= all);
    if out.len() > 0 {
        assert(texts(out@)[0] == out@[0]@);
        if same(out[0].as_str(), cli_name) || holds_text(aliases, out[0].as_str()) {
            return crate::cli::tree::texts_from(&out, 1);
        }
    }
    out
}

/// Whether one of the candidates has the given value.
fn is_offered(all: &Vec<Candidate>, value: &str) -> (r: bool)
    ensures
        r == offered(choices(all@), value@),
{
    let ghost known = choices(all@);
    let mut i: usize = 0;
    while i < all.len()
        invariant
            i <= all@.len(),
            known == choices(all@),
            forall|k: int| 0 <= k < i ==> (#[trigger] known[k]).value != value@,
        decreases all.len() - i,
    {
        assert(known[i as int] == all@[i as int]@);
        if same(all[i].value.as_str(), value) {
            return true;
        }
        i += 1;
    }
    false
}

/// Adds the built-in commands.
fn add_builtins(all: &mut Vec<Candidate>, commands: &Vec<BuiltinCommand>, current: &str)
    ensures
        choices(final(all)@) == with_builtins(choices(old(all)@), all_of(commands@), current@),
{
    let ghost start = choices(all@);
    let ghost known = all_of(commands@);
    let mut i: usize = 0;
    while i < commands.len()
        invariant
            i <= commands@.len(),
            known == all_of(commands@),
            choices(all@) == with_builtins(start, known.take(i as int), current@),
        decreases commands.len() - i,
    {
        let ghost was = choices(all@);
        assert(known.take(i + 1).drop_last() =~= known.take(i as int));
        assert(known[i as int] == commands@[i as int]@);
        let name = commands[i].name.as_str();
        if starts_with(name, current) && !is_offered(all, name) {
            let next = Candidate {
                value: commands[i].name.clone(),
                description: Some(commands[i].description.clone()),
                no_space: commands[i].subcommands.len() > 0,
            };
            let ghost n = next@;
            all.push(next);
            assert(choices(all@) =~= was.push(n));
        }
        i += 1;
    }
    assert(known.take(known.len() as int) =~= known);
}

/// Adds the subcommands of a built-in command.
fn add_subcommands(all: &mut Vec<Candidate>, builtin: &BuiltinCommand, current: &str)
    ensures
        choices(final(all)@) == with_subcommands(
            choices(old(all)@),
            builtin@.subcommands,
            current@,
        ),
{
    let ghost start = choices(all@);
    let ghost known = subs(builtin.subcommands@);
    let mut i: usize = 0;
    while i < builtin.subcommands.len()
        invariant
            i <= builtin.subcommands@.len(),
            known == subs(builtin.subcommands@),
            choices(all@) == with_subcommands(start, known.take(i as int), current@),
        decreases builtin.subcommands.len() - i,
    {
        let ghost was = choices(all@);
        assert(known.take(i + 1).drop_last() =~= known.take(i as int));
        assert(known[i as int] == builtin.subcommands@[i as int]@);
        if starts_with(builtin.subcommands[i].name.as_str(), current) {
            let next = Candidate {
                value: builtin.subcommands[i].name.clone(),
                description: Some(builtin.subcommands[i].description.clone()),
                no_space: false,
            };
            let ghost n = next@;
            all.push(next);
            assert(choices(all@) =~= was.push(n));
        }
        i += 1;
    }
    assert(known.take(known.len() as int) =~= known);
}

/// Adds what the built-in commands offer.
fn add_builtin_choices(all: &mut Vec<Candidate>, cli_name: &str, plain: &Vec<String>, current: &str)
    ensures
        choices(final(all)@) == with_builtin_choices(
            choices(old(all)@),
            cli_name@,
            texts(plain@),
            current@,
        ),
{
    let commands = builtin_commands(cli_name);
    let ghost known = all_of(commands@);
    if plain.len() == 0 {
        add_builtins(all, &commands, current);
    } else if plain.len() == 1 {
        let ghost start = choices(all@);
        assert(texts(plain@)[0] == plain@[0]@);
        let mut i: usize = 0;
        while i < commands.len()
            invariant
                i <= commands@.len(),
                known == all_of(commands@),
                known == builtins(cli_name@),
                plain@.len() == 1,
                texts(plain@)[0] == plain@[0]@,
                choices(all@) == start,
                start == choices(old(all)@),
                builtin_named(known, plain@[0]@, 0) == builtin_named(
                    known,
                    plain@[0]@,
                    i as nat,
                ),
            decreases commands.len() - i,
        {
            assert(known[i as int] == commands@[i as int]@);
            if same(commands[i].name.as_str(), plain[0].as_str()) {
                add_subcommands(all, &commands[i], current);
                return ;
            }
            i += 1;
        }
    }
}

/// Answers a shell that asks for completions, where one does.
pub fn completion_output(
    cli_name: &str,
    aliases: &Vec<String>,
    commands: &Vec<(String, CommandEntry)>,
    root_command: Option<&command::CommandDef>,
    globals_fields: &Vec<FieldMeta>,
    global_aliases: &Vec<(String, char)>,
    argv: &Vec<String>,
    complete_shell: Option<&str>,
    complete_index: Option<&str>,
) -> (r: Option<String>)
    ensures
        opt_text(r) == match opt_str(complete_shell) {
            Some(name) => match shell_named(name) {
                Some(shell) => Some(
                    completion_answer(
                        cli_name@,
                        texts(aliases@),
                        completion_nodes(
                            commands@,
                            fields(globals_fields@),
                            keyed(global_aliases@),
                        ),
                        root_completion(
                            root_command,
                            fields(globals_fields@),
                            keyed(global_aliases@),
                        ),
                        texts(argv@),
                        shell,
                        opt_str(complete_index),
                    ),
                ),
                None => None,
            },
            None => None,
        },
{
    let shell = match complete_shell {
        Some(name) => match Shell::from_str(name) {
            Some(shell) => shell,
            None => {
                return None;
            },
        },
        None => {
            return None;
        },
    };
    let words = words_to_complete(argv);
    if words.len() == 0 {
        return Some(registration(shell, cli_name, aliases));
    }
    let at: usize = match complete_index {
        Some(text) => match parse_usize(text) {
            Some(n) => n,
            None => words.len() - 1,
        },
        None => words.len() - 1,
    };
    let tree = convert_to_completion_commands(commands, globals_fields, global_aliases);
    let root = completion_root_command(root_command, globals_fields, global_aliases);
    let root_ref = match &root {
        Some(def) => Some(def),
        None => None,
    };
    let mut candidates = complete(&tree, root_ref, &words, at);
    let current: String = if at < words.len() {
        words[at].clone()
    } else {
        String::new()
    };
    assert(current@ =~= word_at(texts(words@), at as int));
    let plain = plain_words(&words, at, cli_name, aliases);
    add_builtin_choices(&mut candidates, cli_name, &plain, current.as_str());
    Some(completions::format(shell, &candidates))
}

/// Of the words of a line those that begin with a dash are left out, and the others kept
/// in order.
pub proof fn law_plain_words_are_kept(
    a: Seq<Seq<char>>,
    b: Seq<Seq<char>>,
    one: Seq<char>,
)
    ensures
        non_flags(a + b) == non_flags(a) + non_flags(b),
        dashed(one) ==> non_flags(seq![one]).len() == 0,
        !dashed(one) ==> non_flags(seq![one]) == seq![one],
    decreases b.len(),
{
    reveal_with_fuel(non_flags, 2);
    assert(seq![one].drop_last() =~= Seq::empty());
    assert(non_flags(seq![one].drop_last()) =~= Seq::empty());
    if b.len() == 0 {
        assert(a + b =~= a);
        assert(non_flags(a) + non_flags(b) =~= non_flags(a));
    } else {
        law_plain_words_are_kept(a, b.drop_last(), one);
        assert((a + b).drop_last() =~= a + b.drop_last());
        assert((a + b).last() == b.last());
        assert(non_flags(a + b) =~= non_flags(a) + non_flags(b));
    }
}

/// The completions of a level are those of its entries, in order: a command with its
/// options and the global ones behind them, a group with its own commands and the
/// global options, and nothing of a gateway.
pub proof fn law_nodes_follow_the_tree(
    a: Seq<(String, CommandEntry)>,
    b: Seq<(String, CommandEntry)>,
    one: (String, CommandEntry),
    globals: Seq<Field>,
    aliases: Seq<(Seq<char>, char)>,
)
    ensures
        completion_nodes(a + b, globals, aliases) == completion_nodes(a, globals, aliases) + completion_nodes(b, globals, aliases),
        one.1 matches CommandEntry::Leaf(def) ==> completion_nodes(seq![one], globals, aliases).len() == 1 && completion_nodes(seq![one], globals, aliases)[0].0 == one.0@
            && !completion_nodes(seq![one], globals, aliases)[0].1.is_group && completion_nodes(seq![one], globals, aliases)[0].1.description == opt_text(def.description)
            && completion_nodes(seq![one], globals, aliases)[0].1.options == fields(def.options_fields@) + globals,
        one.1 matches CommandEntry::Group { description, commands, .. } ==> completion_nodes(seq![one], globals, aliases).len() == 1 && completion_nodes(seq![one], globals, aliases)[0].0
            == one.0@ && completion_nodes(seq![one], globals, aliases)[0].1.is_group && completion_nodes(seq![one], globals, aliases)[0].1.description == opt_text(description)
            && completion_nodes(seq![one], globals, aliases)[0].1.options == globals && completion_nodes(seq![one], globals, aliases)[0].1.aliases == aliases && completion_nodes(seq![one], globals, aliases)[0].1.commands
            == completion_nodes(commands@, globals, aliases),
        one.1 is FetchGateway ==> completion_nodes(seq![one], globals, aliases).len() == 0,
    decreases b.len(),
{
    reveal_with_fuel(completion_nodes, 2);
    assert(seq![one].drop_last() =~= Seq::empty());
    assert(completion_nodes(seq![one].drop_last(), globals, aliases) =~= Seq::empty());
    if b.len() == 0 {
        assert(a + b =~= a);
        assert(completion_nodes(a, globals, aliases) + completion_nodes(b, globals, aliases) =~= completion_nodes(a, globals, aliases));
    } else {
        law_nodes_follow_the_tree(a, b.drop_last(), one, globals, aliases);
        assert((a + b).drop_last() =~= a + b.drop_last());
        assert((a + b).last() == b.last());
        assert(completion_nodes(a + b, globals, aliases) =~= completion_nodes(a, globals, aliases) + completion_nodes(b, globals, aliases));
    }
}

/// Of two lists of short names the second wins; the others are all kept.
pub proof fn law_later_short_names_win(
    base: Seq<(Seq<char>, char)>,
    more: Seq<(Seq<char>, char)>,
    name: Seq<char>,
)
    ensures
        (forall|i: int| 0 <= i < more.len() ==> (#[trigger] more[i]).0 != name) ==> lookup(
            united(base, more),
            name,
        ) == lookup(base, name),
        forall|i: int|
            0 <= i < more.len() && (#[trigger] more[i]).0 == name && (forall|j: int|
                i < j < more.len() ==> (#[trigger] more[j]).0 != name) ==> lookup(
                united(base, more),
                name,
            ) == Some(more[i].1),
    decreases more.len(),
{
    if more.len() > 0 {
        let head = more.drop_last();
        law_later_short_names_win(base, head, name);
        table::lemma_lookup_inserted(united(base, head), more.last().0, more.last().1, name);
        assert forall|i: int|
            0 <= i < more.len() && (#[trigger] more[i]).0 == name && (forall|j: int|
                i < j < more.len() ==> (#[trigger] more[j]).0 != name) implies lookup(
            united(base, more),
            name,
        ) == Some(more[i].1) by {
            if i < more.len() - 1 {
                assert(more[more.len() - 1].0 != name);
                assert(head[i] == more[i]);
                assert forall|j: int| i < j < head.len() implies (#[trigger] head[j]).0 != name by {
                    assert(more[j].0 != name);
                }
            }
        }
        if forall|i: int| 0 <= i < more.len() ==> (#[trigger] more[i]).0 != name {
            assert(more[more.len() - 1].0 != name);
            assert forall|i: int| 0 <= i < head.len() implies (#[trigger] head[i]).0 != name by {
                assert(more[i].0 != name);
            }
        }
    }
}

/// The words that are completed are those behind the first separator, or all where there
/// is none.
pub proof fn law_completed_words_follow_the_separator(
    before: Seq<Seq<char>>,
    words: Seq<Seq<char>>,
)
    requires
        !before.contains("--"@),
    ensures
        completion_words(before + seq!["--"@] + words) == words,
        completion_words(before) == before,
{
    let argv = before + seq!["--"@] + words;
    lemma_separator(argv, before.len(), 0);
    lemma_no_separator(before, 0);
    assert(argv.skip(before.len() as int + 1) =~= words);
}

proof fn lemma_separator(argv: Seq<Seq<char>>, at: nat, from: nat)
    requires
        from <= at < argv.len(),
        argv[at as int] == "--"@,
        !argv.take(at as int).contains("--"@),
    ensures
        after_separator(argv, from) == Some(at),
    decreases at - from,
{
    if from < at {
        assert(argv.take(at as int)[from as int] == argv[from as int]);
        lemma_separator(argv, at, from + 1);
    }
}

proof fn lemma_no_separator(argv: Seq<Seq<char>>, from: nat)
    requires
        !argv.contains("--"@),
    ensures
        after_separator(argv, from) is None,
    decreases argv.len() - from,
{
    if from < argv.len() {
        assert(argv.contains(argv[from as int]));
        lemma_no_separator(argv, from + 1);
    }
}

/// The name of the command line, or another of its names, does not count among the words
/// of a command when it stands first.
pub proof fn law_own_name_is_left_out(
    words: Seq<Seq<char>>,
    cli: Seq<char>,
    aliases: Seq<Seq<char>>,
    first: Seq<char>,
)
    requires
        !dashed(first),
    ensures
        first == cli || aliases.contains(first) ==> command_words(
            seq![first] + words,
            cli,
            aliases,
        ) == non_flags(words),
        first != cli && !aliases.contains(first) ==> command_words(
            seq![first] + words,
            cli,
            aliases,
        ) == seq![first] + non_flags(words),
{
    law_plain_words_are_kept(seq![first], words, first);
    let plain = non_flags(seq![first] + words);
    assert(plain =~= seq![first] + non_flags(words));
    assert(plain.skip(1) =~= non_flags(words));
}

/// With no word before the cursor each built-in command that begins with what was typed
/// is offered, unless one of its name is already, and behind the name of one its
/// subcommands are. The other choices stay as they are.
pub proof fn law_builtins_are_offered(
    all: Seq<Choice>,
    commands: Seq<Builtin>,
    current: Seq<char>,
    i: int,
)
    requires
        0 <= i < commands.len(),
    ensures
        all.is_prefix_of(with_builtins(all, commands, current)),
        current.is_prefix_of(commands[i].name) ==> offered(
            with_builtins(all, commands, current),
            commands[i].name,
        ),
        forall|k: int|
            all.len() <= k < with_builtins(all, commands, current).len() ==> current.is_prefix_of(
                (#[trigger] with_builtins(all, commands, current)[k]).value,
            ),
    decreases commands.len(),
{
    let head = with_builtins(all, commands.drop_last(), current);
    let now = with_builtins(all, commands, current);
    if commands.len() > 1 {
        let j: int = if i < commands.len() - 1 {
            i
        } else {
            0
        };
        law_builtins_are_offered(all, commands.drop_last(), current, j);
        assert(commands.drop_last()[j] == commands[j]);
        assert forall|v: Seq<char>| offered(head, v) implies offered(now, v) by {
            let k = choose|k: int| 0 <= k < head.len() && (#[trigger] head[k]).value == v;
            assert(now[k] == head[k]);
        }
    } else {
        assert(head =~= all);
    }
    assert(now == head || (now.len() == head.len() + 1 && now.drop_last() == head));
    if now != head {
        assert(now.last().value == commands.last().name);
        assert(now[now.len() - 1].value == commands.last().name);
        assert forall|k: int| all.len() <= k < now.len() implies current.is_prefix_of(
            (#[trigger] now[k]).value,
        ) by {
            if k < now.len() - 1 {
                assert(now[k] == head[k]);
            }
        }
    }
}

/// The cursor stands where it is said to, or else on the last word.
pub proof fn law_cursor_is_given_or_last(words: Seq<Seq<char>>, given: Option<Seq<char>>)
    requires
        words.len() > 0,
    ensures
        given is None ==> cursor(words, given) == words.len() - 1,
        given matches Some(text) ==> (parsed_up_to(text, usize::MAX as nat) matches Some(n)
            ==> cursor(words, given) == n),
        given matches Some(text) ==> (parsed_up_to(text, usize::MAX as nat) is None ==> cursor(
            words,
            given,
        ) == words.len() - 1),
{
}

/// Behind the name of a built-in command those of its subcommands that begin with what was
/// typed are offered, in order, behind the other choices.
pub proof fn law_subcommands_are_offered(
    all: Seq<Choice>,
    commands: Seq<Sub>,
    one: Sub,
    current: Seq<char>,
)
    ensures
        ({
            let before = with_subcommands(all, commands, current);
            let after = with_subcommands(all, commands.push(one), current);
            &&& !current.is_prefix_of(one.name) ==> after == before
            &&& current.is_prefix_of(one.name) ==> after == before.push(
                Choice {
                    value: one.name,
                    description: Some(one.description),
                    no_space: false,
                },
            )
            &&& with_subcommands(all, Seq::empty(), current) == all
        }),
{
    assert(commands.push(one).drop_last() =~= commands);
}

/// The words at which built-in commands and their subcommands are offered: none, and the
/// name of one; with more words the choices stay as they are.
pub proof fn law_builtins_are_offered_first(
    all: Seq<Choice>,
    cli: Seq<char>,
    plain: Seq<Seq<char>>,
    current: Seq<char>,
)
    ensures
        plain.len() == 0 ==> with_builtin_choices(all, cli, plain, current) == with_builtins(
            all,
            builtins(cli),
            current,
        ),
        plain == seq!["mcp"@] ==> with_builtin_choices(all, cli, plain, current)
            == with_subcommands(all, builtins(cli)[1].subcommands, current),
        plain == seq!["skills"@] ==> with_builtin_choices(all, cli, plain, current)
            == with_subcommands(all, builtins(cli)[2].subcommands, current),
        plain.len() > 1 ==> with_builtin_choices(all, cli, plain, current) == all,
        plain.len() == 1 && plain[0] != "completions"@ && plain[0] != "mcp"@ && plain[0]
            != "skills"@ ==> with_builtin_choices(all, cli, plain, current) == all,
{
    lemma_offered_names();
    reveal_with_fuel(builtin_named, 4);
}

/// The names of the built-in commands differ.
proof fn lemma_offered_names()
    ensures
        "completions"@ != "mcp"@,
        "completions"@ != "skills"@,
        "mcp"@ != "skills"@,
{
    reveal_strlit("completions");
    reveal_strlit("mcp");
    reveal_strlit("skills");
    assert("completions"@.len() == 11);
    assert("mcp"@.len() == 3);
    assert("skills"@.len() == 6);
}

/// Without words the answer is the script of the shell, for the command line and each of
/// its other names.
pub proof fn law_no_words_give_the_script(
    cli: Seq<char>,
    names: Seq<Seq<char>>,
    commands: Seq<(Seq<char>, Node)>,
    root: Option<Leaf>,
    shell: Shell,
    index: Option<Seq<char>>,
)
    ensures
        completion_answer(cli, names, commands, root, Seq::empty(), shell, index) == scripts(
            shell,
            cli,
            names,
        ),
        scripts(shell, cli, Seq::empty()) == script(shell, cli),
        names.len() > 0 ==> scripts(shell, cli, names) == scripts(shell, cli, names.drop_last())
            + "\n"@ + script(shell, names.last()),
{
    lemma_no_separator(Seq::empty(), 0);
    let one = (seq![cli] + Seq::<Seq<char>>::empty()).map_values(|n: Seq<char>| script(shell, n));
    assert(one =~= seq![script(shell, cli)]);
    if names.len() > 0 {
        let all = (seq![cli] + names).map_values(|n: Seq<char>| script(shell, n));
        let head = (seq![cli] + names.drop_last()).map_values(|n: Seq<char>| script(shell, n));
        assert(all.drop_last() =~= head);
        assert(all.last() == script(shell, names.last()));
    }
}

/// At the top the options of the command line's own command are offered with the global
/// ones behind them, and the global ones alone where it has none.
pub proof fn law_top_level_offers_options(
    root: command::CommandDef,
    globals: Seq<Field>,
    aliases: Seq<(Seq<char>, char)>,
)
    ensures
        root_completion(Some(&root), globals, aliases) matches Some(leaf) && leaf.options == fields(
            root.options_fields@,
        ) + globals,
        globals.len() == 0 ==> root_completion(None, globals, aliases) is None,
        globals.len() > 0 ==> (root_completion(None, globals, aliases) matches Some(leaf)
            && leaf.options == globals),
{
}

/// The answer for words are the choices at the cursor, in the form of the shell.
pub proof fn law_words_give_choices(
    cli: Seq<char>,
    names: Seq<Seq<char>>,
    commands: Seq<(Seq<char>, Node)>,
    root: Option<Leaf>,
    words: Seq<Seq<char>>,
    current: Seq<char>,
    shell: Shell,
)
    requires
        !words.push(current).contains("--"@),
    ensures
        ({
            let all = words.push(current);
            completion_answer(cli, names, commands, root, all, shell, None) == formatted(
                shell,
                with_builtin_choices(
                    completed(commands, root, all, words.len()),
                    cli,
                    command_words(words, cli, names),
                    current,
                ),
            )
        }),
{
    let all = words.push(current);
    lemma_no_separator(all, 0);
    assert(all.take(words.len() as int) =~= words);
}

} // verus!
