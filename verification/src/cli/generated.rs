//! Command groups built from commands with generated paths.

use vstd::prelude::*;
use crate::cli::builder::{same_but_commands, Cli};
use crate::cli::tree::CommandEntry;
use crate::cli::walk::{
    all_sorted, entry_sorted, lemma_all_sorted, lemma_all_sorted_from, lemma_tree_sorted_inserted,
    lemma_tree_sorted_updated, tree_sorted,
};
use crate::command::CommandDef;
use crate::output::OutputPolicy;
use crate::table;
use crate::table::{
    find_key, inserted, keyed, keys, lemma_inserted_mapped, lemma_lookup_inserted,
    lemma_position_from, lookup, mapped, position_from, sorted,
};
use crate::text::{opt_text, split_words, texts, words};

verus! {

/// What a [`CommandEntry`] means.
#[verifier::ext_equal]
pub enum Tree {
    /// A leaf command.
    Leaf(CommandDef),
    /// A group of subcommands.
    Group {
        /// Description of the group.
        description: Option<Seq<char>>,
        /// Subcommands within this group.
        commands: Seq<(Seq<char>, Tree)>,
        /// Middleware of the group.
        middleware: Seq<usize>,
        /// Output policy inherited by child commands.
        policy: Option<OutputPolicy>,
    },
    /// A fetch gateway.
    Gateway {
        /// Description of the gateway.
        description: Option<Seq<char>>,
        /// Base path prefix for request URLs.
        base_path: Option<Seq<char>>,
        /// Output policy for the gateway.
        policy: Option<OutputPolicy>,
        /// Number of the fetch handler.
        handler: usize,
    },
}

impl View for CommandEntry {
    type V = Tree;

    open spec fn view(&self) -> Tree
        decreases *self,
    {
        match *self {
            CommandEntry::Leaf(def) => Tree::Leaf(def),
            CommandEntry::Group { description, commands, middleware, output_policy } => {
                Tree::Group {
                    description: opt_text(description),
                    commands: Seq::new(
                        commands@.len(),
                        |i: int|
                            if 0 <= i < commands@.len() {
                                (commands@[i].0@, commands@[i].1.view())
                            } else {
                                arbitrary()
                            },
                    ),
                    middleware: middleware@,
                    policy: output_policy,
                }
            },
            CommandEntry::FetchGateway { description, base_path, output_policy, handler } => {
                Tree::Gateway {
                    description: opt_text(description),
                    base_path: opt_text(base_path),
                    policy: output_policy,
                    handler,
                }
            },
        }
    }
}

/// What the entries of a level mean.
pub open spec fn trees(v: Seq<(String, CommandEntry)>) -> Seq<(Seq<char>, Tree)> {
    v.map_values(|e: (String, CommandEntry)| (e.0@, e.1@))
}

/// The meanings of the entries of a level, by their keys.
pub proof fn lemma_trees(v: Seq<(String, CommandEntry)>)
    ensures
        trees(v) == mapped(keyed(v), |e: CommandEntry| e@),
        keys(trees(v)) == keys(keyed(v)),
{
    assert(trees(v) =~= mapped(keyed(v), |e: CommandEntry| e@));
    assert(keys(trees(v)) =~= keys(keyed(v)));
}

/// A group means what its parts mean.
pub proof fn lemma_group_view(
    description: Option<String>,
    commands: Vec<(String, CommandEntry)>,
    middleware: Vec<usize>,
    output_policy: Option<OutputPolicy>,
)
    ensures
        (CommandEntry::Group { description, commands, middleware, output_policy })@
            == (Tree::Group {
            description: opt_text(description),
            commands: trees(commands@),
            middleware: middleware@,
            policy: output_policy,
        }),
{
    reveal_with_fuel(<CommandEntry as View>::view, 2);
    let e = CommandEntry::Group { description, commands, middleware, output_policy };
    assert(e@->Group_commands =~= trees(commands@));
}

/// A level with a command put under the given names: groups on the way are
/// entered, and made where they are missing. Where another command is in the
/// way, nothing is put.
pub open spec fn grown(level: Seq<(Seq<char>, Tree)>, names: Seq<Seq<char>>, def: CommandDef) -> Seq<
    (Seq<char>, Tree),
>
    decreases names.len(),
{
    if names.len() == 0 {
        level
    } else if names.len() == 1 {
        inserted(level, names[0], Tree::Leaf(def))
    } else {
        match position_from(keys(level), names[0], 0) {
            Some(i) => match level[i as int].1 {
                Tree::Group { description, commands, middleware, policy } => level.update(
                    i as int,
                    (
                        names[0],
                        Tree::Group {
                            description,
                            commands: grown(commands, names.skip(1), def),
                            middleware,
                            policy,
                        },
                    ),
                ),
                _ => level,
            },
            None => inserted(
                level,
                names[0],
                Tree::Group {
                    description: opt_text(def.description),
                    commands: grown(Seq::empty(), names.skip(1), def),
                    middleware: Seq::empty(),
                    policy: None,
                },
            ),
        }
    }
}

fn store(commands: &mut Vec<(String, CommandEntry)>, name: String, entry: CommandEntry)
    ensures
        trees(final(commands)@) == inserted(trees(old(commands)@), name@, entry@),
        tree_sorted(old(commands)@) && entry_sorted(entry) ==> tree_sorted(final(commands)@),
{
    let ghost was = commands@;
    let ghost text = name@;
    proof {
        lemma_trees(was);
        lemma_inserted_mapped(keyed(was), text, entry, |e: CommandEntry| e@);
    }
    table::insert(commands, name, entry);
    proof {
        lemma_trees(commands@);
        if tree_sorted(was) && entry_sorted(entry) {
            lemma_tree_sorted_inserted(was, commands@, text, entry);
        }
    }
}

fn insert_below(
    commands: &mut Vec<(String, CommandEntry)>,
    names: &Vec<String>,
    from: usize,
    command: CommandDef,
)
    requires
        from < names@.len(),
    ensures
        trees(final(commands)@) == grown(
            trees(old(commands)@),
            texts(names@).skip(from as int),
            command,
        ),
        tree_sorted(old(commands)@) ==> tree_sorted(final(commands)@),
    decreases names.len() - from,
{
    proof {
        reveal_with_fuel(entry_sorted, 2);
        reveal_with_fuel(all_sorted, 2);
    }
    let ghost left = texts(names@).skip(from as int);
    let ghost was = commands@;
    assert(left[0] == names@[from as int]@);
    let name = names[from].clone();
    if from == names.len() - 1 {
        store(commands, name, CommandEntry::Leaf(command));
        return;
    }
    assert(left.skip(1) =~= texts(names@).skip(from + 1));
    proof {
        lemma_trees(was);
        lemma_position_from(keys(keyed(was)), name@, 0);
    }
    match find_key(commands, name.as_str()) {
        Some(i) => {
            let (key, entry) = commands.remove(i);
            assert(key@ == name@) by {
                assert(keys(keyed(was))[i as int] == was[i as int].0@);
            }
            match entry {
                CommandEntry::Group { description, commands: inner, middleware, output_policy } => {
                    let mut inner = inner;
                    proof {
                        lemma_group_view(description, inner, middleware, output_policy);
                        if tree_sorted(was) {
                            lemma_all_sorted(was, i as int);
                        }
                    }
                    insert_below(&mut inner, names, from + 1, command);
                    proof {
                        lemma_group_view(description, inner, middleware, output_policy);
                    }
                    commands.insert(
                        i,
                        (
                            key,
                            CommandEntry::Group {
                                description,
                                commands: inner,
                                middleware,
                                output_policy,
                            },
                        ),
                    );
                },
                other => {
                    commands.insert(i, (key, other));
                },
            }
            assert(trees(commands@) =~= grown(trees(was), left, command));
            proof {
                if tree_sorted(was) {
                    lemma_all_sorted(was, i as int);
                    assert(commands@ =~= was.update(i as int, commands@[i as int]));
                    lemma_tree_sorted_updated(was, commands@, i as int);
                }
            }
        },
        None => {
            let mut inner: Vec<(String, CommandEntry)> = Vec::new();
            assert(trees(inner@) =~= Seq::empty());
            let description = crate::text::copy_opt(&command.description);
            let middleware: Vec<usize> = Vec::new();
            assert(middleware@ =~= Seq::empty());
            insert_below(&mut inner, names, from + 1, command);
            proof {
                lemma_group_view(description, inner, middleware, None);
            }
            store(
                commands,
                name,
                CommandEntry::Group {
                    description,
                    commands: inner,
                    middleware,
                    output_policy: None,
                },
            );
        },
    }
}

/// Whether a definition is another one under the given name.
pub open spec fn renamed(def: CommandDef, other: CommandDef, name: Seq<char>) -> bool {
    def.name@ == name && def == (CommandDef { name: def.name, ..other })
}

/// Puts a command under a path of names with white space between them. The last
/// name becomes the name of the command.
pub fn insert_generated_command(
    commands: &mut Vec<(String, CommandEntry)>,
    path: &str,
    command: CommandDef,
)
    ensures
        if words(path@).len() == 0 {
            final(commands)@ == old(commands)@
        } else {
            exists|def: CommandDef|
                #[trigger] renamed(def, command, words(path@).last()) && trees(final(commands)@)
                    == grown(trees(old(commands)@), words(path@), def)
        },
        tree_sorted(old(commands)@) ==> tree_sorted(final(commands)@),
{
    let names = split_words(path);
    assert(texts(names@).len() == names@.len());
    if names.len() == 0 {
        return;
    }
    let mut def = command;
    def.name = names[names.len() - 1].clone();
    assert(renamed(def, command, words(path@).last()));
    assert(words(path@).skip(0) =~= words(path@));
    insert_below(commands, &names, 0, def);
}

/// A level with commands put under paths, one after the other. A path without a name
/// puts nothing.
pub open spec fn all_grown(
    level: Seq<(Seq<char>, Tree)>,
    paths: Seq<Seq<char>>,
    defs: Seq<CommandDef>,
) -> Seq<(Seq<char>, Tree)>
    decreases paths.len(),
{
    if paths.len() == 0 {
        level
    } else {
        grown(
            all_grown(level, paths.drop_last(), defs.drop_last()),
            words(paths.last()),
            defs.last(),
        )
    }
}

/// Whether definitions are those of commands, each under the last name of its path.
pub open spec fn all_renamed(defs: Seq<CommandDef>, commands: Seq<(String, CommandDef)>) -> bool {
    &&& defs.len() == commands.len()
    &&& forall|i: int|
        0 <= i < defs.len() && words(commands[i].0@).len() > 0 ==> renamed(
            #[trigger] defs[i],
            commands[i].1,
            words(commands[i].0@).last(),
        )
}

/// The keys of commands.
pub open spec fn paths_of(commands: Seq<(String, CommandDef)>) -> Seq<Seq<char>> {
    commands.map_values(|c: (String, CommandDef)| c.0@)
}

/// A group of commands without middleware and output policy.
pub open spec fn plain_group(
    description: Option<Seq<char>>,
    commands: Seq<(Seq<char>, Tree)>,
) -> Tree {
    Tree::Group { description, commands, middleware: Seq::empty(), policy: None }
}

/// Commands as the entries of a level.
pub open spec fn leaf_trees(commands: Seq<(String, CommandDef)>) -> Seq<(Seq<char>, Tree)> {
    commands.map_values(|c: (String, CommandDef)| (c.0@, Tree::Leaf(c.1)))
}

/// Mounts a level of commands as a group.
fn mount(
    cli: Cli,
    name: String,
    description: Option<String>,
    commands: Vec<(String, CommandEntry)>,
) -> (r: Cli)
    ensures
        same_but_commands(r, cli),
        trees(r.commands@) == inserted(
            trees(cli.commands@),
            name@,
            plain_group(opt_text(description), trees(commands@)),
        ),
        cli.well_formed() && tree_sorted(commands@) ==> r.well_formed(),
{
    let middleware: Vec<usize> = Vec::new();
    let entry = CommandEntry::Group { description, commands, middleware, output_policy: None };
    proof {
        reveal_with_fuel(entry_sorted, 2);
        lemma_group_view(description, commands, middleware, None);
        assert(middleware@ =~= Seq::empty());
        lemma_trees(cli.commands@);
        lemma_inserted_mapped(keyed(cli.commands@), name@, entry, |e: CommandEntry| e@);
    }
    let r = cli.with_entry(name, entry);
    proof {
        lemma_trees(r.commands@);
    }
    r
}

impl Cli {
    /// Mounts the commands of a remote MCP server as a command group.
    pub fn remote_mcp(
        self,
        name: String,
        commands: Vec<(String, CommandDef)>,
        description: Option<String>,
    ) -> (r: Self)
        ensures
            same_but_commands(r, self),
            trees(r.commands@) == inserted(
                trees(self.commands@),
                name@,
                plain_group(opt_text(description), leaf_trees(commands@)),
            ),
            self.well_formed() && sorted(keyed(commands@)) ==> r.well_formed(),
    {
        let mut level: Vec<(String, CommandEntry)> = Vec::new();
        let ghost all = commands@;
        for (name, def) in it: commands
            invariant
                it.seq() == all,
                level@.len() == it.index(),
                forall|i: int|
                    0 <= i < level@.len() ==> level@[i].0 == all[i].0 && (#[trigger] level@[i]).1
                        == CommandEntry::Leaf(all[i].1),
        {
            level.push((name, CommandEntry::Leaf(def)));
        }
        assert(trees(level@) =~= leaf_trees(all));
        proof {
            if sorted(keyed(all)) {
                assert forall|i: int| 0 <= i < level@.len() implies entry_sorted(
                    #[trigger] level@[i].1,
                ) by {}
                lemma_all_sorted_from(level@);
                assert forall|i: int| 0 <= i < level@.len() implies #[trigger] keyed(level@)[i].0
                    == keyed(all)[i].0 by {}
            }
        }
        mount(self, name, description, level)
    }

    /// Mounts commands that were generated from an OpenAPI document, each under its
    /// path, as a command group.
    pub fn openapi_group(
        self,
        name: String,
        commands: Vec<(String, CommandDef)>,
        description: Option<String>,
    ) -> (r: Self)
        ensures
            same_but_commands(r, self),
            exists|defs: Seq<CommandDef>|
                #[trigger] all_renamed(defs, commands@) && trees(r.commands@) == inserted(
                    trees(self.commands@),
                    name@,
                    plain_group(
                        opt_text(description),
                        all_grown(Seq::empty(), paths_of(commands@), defs),
                    ),
                ),
            self.well_formed() ==> r.well_formed(),
    {
        let mut level: Vec<(String, CommandEntry)> = Vec::new();
        let ghost all = commands@;
        let ghost mut defs: Seq<CommandDef> = Seq::empty();
        assert(trees(level@) =~= Seq::empty());
        assert(all.take(0) =~= Seq::empty());
        for (path, def) in it: commands
            invariant
                it.seq() == all,
                all_renamed(defs, all.take(it.index() as int)),
                tree_sorted(level@),
                trees(level@) == all_grown(
                    Seq::empty(),
                    paths_of(all.take(it.index() as int)),
                    defs,
                ),
        {
            let ghost n: int = it.index() as int;
            let ghost was = defs;
            let ghost before = level@;
            insert_generated_command(&mut level, path.as_str(), def);
            proof {
                let names = words(path@);
                let now = if names.len() == 0 {
                    def
                } else {
                    choose|now: CommandDef|
                        #[trigger] renamed(now, def, names.last()) && trees(level@) == grown(
                            trees(before),
                            names,
                            now,
                        )
                };
                defs = was.push(now);
                assert(all.take(n + 1).drop_last() =~= all.take(n));
                assert(paths_of(all.take(n + 1)).drop_last() =~= paths_of(all.take(n)));
                assert(paths_of(all.take(n + 1)).last() == path@);
                assert(defs.drop_last() =~= was);
                assert forall|i: int|
                    0 <= i < defs.len() && words(all.take(n + 1)[i].0@).len() > 0 implies renamed(
                    #[trigger] defs[i],
                    all.take(n + 1)[i].1,
                    words(all.take(n + 1)[i].0@).last(),
                ) by {
                    if i < n {
                        assert(was[i] == defs[i]);
                        assert(all.take(n)[i] == all.take(n + 1)[i]);
                    }
                }
            }
        }
        assert(all.take(all.len() as int) =~= all);
        mount(self, name, description, level)
    }
}

// ---------------------------------------------------------------------------
// Laws
// ---------------------------------------------------------------------------

/// What stands under the given names.
pub open spec fn at_path(level: Seq<(Seq<char>, Tree)>, names: Seq<Seq<char>>) -> Option<Tree>
    decreases names.len(),
{
    if names.len() == 0 {
        None
    } else if names.len() == 1 {
        lookup(level, names[0])
    } else {
        match lookup(level, names[0]) {
            Some(Tree::Group { commands, .. }) => at_path(commands, names.skip(1)),
            _ => None,
        }
    }
}

/// Whether only groups are in the way to the given names.
pub open spec fn way_is_free(level: Seq<(Seq<char>, Tree)>, names: Seq<Seq<char>>) -> bool
    decreases names.len(),
{
    names.len() > 1 ==> match lookup(level, names[0]) {
        Some(Tree::Group { commands, .. }) => way_is_free(commands, names.skip(1)),
        Some(_) => false,
        None => true,
    }
}

/// A command that is put under a path stands there, unless another command is in
/// the way.
pub proof fn law_generated_command_is_found(
    level: Seq<(Seq<char>, Tree)>,
    names: Seq<Seq<char>>,
    def: CommandDef,
)
    requires
        names.len() > 0,
        way_is_free(level, names),
    ensures
        at_path(grown(level, names, def), names) == Some(Tree::Leaf(def)),
    decreases names.len(),
{
    if names.len() == 1 {
        lemma_lookup_inserted(level, names[0], Tree::Leaf(def), names[0]);
    } else {
        lemma_position_from(keys(level), names[0], 0);
        match position_from(keys(level), names[0], 0) {
            Some(i) => {
                if let Tree::Group { description, commands, middleware, policy } = level[i as int].1 {
                    law_generated_command_is_found(commands, names.skip(1), def);
                    let now = grown(level, names, def);
                    assert(keys(now) =~= keys(level)) by {
                        assert(keys(level)[i as int] == level[i as int].0);
                    }
                }
            },
            None => {
                let inner = grown(Seq::empty(), names.skip(1), def);
                lemma_empty_way(names.skip(1));
                law_generated_command_is_found(Seq::empty(), names.skip(1), def);
                lemma_lookup_inserted(
                    level,
                    names[0],
                    Tree::Group {
                        description: opt_text(def.description),
                        commands: inner,
                        middleware: Seq::empty(),
                        policy: None,
                    },
                    names[0],
                );
            },
        }
    }
}

proof fn lemma_empty_way(names: Seq<Seq<char>>)
    ensures
        way_is_free(Seq::empty(), names),
{
    if names.len() > 1 {
        lemma_position_from(keys(Seq::<(Seq<char>, Tree)>::empty()), names[0], 0);
    }
}

/// A generated command leaves those on other paths as they were.
pub proof fn law_other_generated_commands_are_kept(
    level: Seq<(Seq<char>, Tree)>,
    names: Seq<Seq<char>>,
    def: CommandDef,
    other: Seq<Seq<char>>,
    n: int,
)
    requires
        0 <= n < names.len(),
        n < other.len(),
        names.take(n) == other.take(n),
        names[n] != other[n],
        at_path(level, other) is Some,
    ensures
        at_path(grown(level, names, def), other) == at_path(level, other),
    decreases names.len(),
{
    let now = grown(level, names, def);
    if n == 0 {
        if names.len() == 1 {
            crate::table::lemma_lookup_inserted(level, names[0], Tree::Leaf(def), other[0]);
        } else {
            match position_from(keys(level), names[0], 0) {
                Some(i) => {
                    if let Tree::Group { description, commands, middleware, policy } = level[i as int].1 {
                        let group = Tree::Group {
                            description,
                            commands: grown(commands, names.skip(1), def),
                            middleware,
                            policy,
                        };
                        crate::table::lemma_lookup_stored(level, names[0], group, other[0]);
                        assert(now == crate::table::stored(level, names[0], group));
                    }
                },
                None => {
                    let group = Tree::Group {
                        description: opt_text(def.description),
                        commands: grown(Seq::empty(), names.skip(1), def),
                        middleware: Seq::empty(),
                        policy: None,
                    };
                    crate::table::lemma_lookup_inserted(level, names[0], group, other[0]);
                },
            }
        }
        assert(lookup(now, other[0]) == lookup(level, other[0]));
    } else {
        assert(names.take(n)[0] == other.take(n)[0]);
        assert(names[0] == other[0]);
        crate::table::lemma_position_from(keys(level), names[0], 0);
        let i = position_from(keys(level), names[0], 0)->0;
        if let Tree::Group { description, commands, middleware, policy } = level[i as int].1 {
            let group = Tree::Group {
                description,
                commands: grown(commands, names.skip(1), def),
                middleware,
                policy,
            };
            assert(now == crate::table::stored(level, names[0], group));
            crate::table::lemma_lookup_stored(level, names[0], group, names[0]);
            assert(names.skip(1).take(n - 1) =~= names.take(n).skip(1));
            assert(other.skip(1).take(n - 1) =~= other.take(n).skip(1));
            law_other_generated_commands_are_kept(
                commands,
                names.skip(1),
                def,
                other.skip(1),
                n - 1,
            );
        }
    }
}

/// Commands are generated one after the other, each at the words of its path.
pub proof fn law_commands_are_generated_in_turn(
    level: Seq<(Seq<char>, Tree)>,
    paths: Seq<Seq<char>>,
    defs: Seq<CommandDef>,
    path: Seq<char>,
    def: CommandDef,
)
    ensures
        all_grown(level, paths.push(path), defs.push(def)) == grown(
            all_grown(level, paths, defs),
            words(path),
            def,
        ),
        all_grown(level, Seq::empty(), Seq::empty()) == level,
        words(path).len() > 0 && way_is_free(all_grown(level, paths, defs), words(path))
            ==> at_path(all_grown(level, paths.push(path), defs.push(def)), words(path)) == Some(
            Tree::Leaf(def),
        ),
{
    assert(paths.push(path).drop_last() =~= paths);
    assert(defs.push(def).drop_last() =~= defs);
    let before = all_grown(level, paths, defs);
    if words(path).len() > 0 && way_is_free(before, words(path)) {
        law_generated_command_is_found(before, words(path), def);
    }
}

} // verus!
