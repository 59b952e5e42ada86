//! The command tree and how words lead through it.

use vstd::prelude::*;
use crate::command::CommandDef;
use crate::output::OutputPolicy;
use crate::table::{find_key, keyed, keys, lemma_position_from, lookup, position_from};
use crate::text::{
    append_texts, copy_opt, join, join_texts, opt_text, same, split, split_at_char, texts,
};

verus! {

/// Entry in the command tree.
///
/// The command tree is a recursive structure where each node is either a
/// leaf command, a group of subcommands, or a fetch gateway. The entries of a
/// group are a table keyed by name.
#[derive(Debug)]
pub enum CommandEntry {
    /// A leaf command that can be executed.
    Leaf(CommandDef),
    /// A group of subcommands (acts as a namespace).
    Group {
        /// Description of the group.
        description: Option<String>,
        /// Subcommands within this group.
        commands: Vec<(String, CommandEntry)>,
        /// Numbers of the middleware that applies to all commands in this group.
        middleware: Vec<usize>,
        /// Output policy inherited by child commands.
        output_policy: Option<OutputPolicy>,
    },
    /// A fetch gateway that proxies to an HTTP handler.
    FetchGateway {
        /// Description of the gateway.
        description: Option<String>,
        /// Base path prefix for request URLs.
        base_path: Option<String>,
        /// Output policy for the gateway.
        output_policy: Option<OutputPolicy>,
        /// Number of the fetch handler that processes requests.
        handler: usize,
    },
}

/// The description of an entry.
pub open spec fn description_of(entry: CommandEntry) -> Option<Seq<char>> {
    match entry {
        CommandEntry::Leaf(def) => opt_text(def.description),
        CommandEntry::Group { description, .. } => opt_text(description),
        CommandEntry::FetchGateway { description, .. } => opt_text(description),
    }
}

impl CommandEntry {
    /// Returns the description of this entry, regardless of variant.
    pub fn description(&self) -> (r: Option<String>)
        ensures
            opt_text(r) == description_of(*self),
    {
        match self {
            CommandEntry::Leaf(def) => copy_opt(&def.description),
            CommandEntry::Group { description, .. } => copy_opt(description),
            CommandEntry::FetchGateway { description, .. } => copy_opt(description),
        }
    }
}

/// Whether the entry is a leaf that can also be invoked as `token`.
pub open spec fn has_alias(entry: CommandEntry, token: Seq<char>) -> bool {
    entry matches CommandEntry::Leaf(def) && texts(def.command_aliases@).contains(token)
}

/// The first entry at or after `from` that has the alias `token`.
pub open spec fn alias_from(
    commands: Seq<(String, CommandEntry)>,
    token: Seq<char>,
    from: nat,
) -> Option<nat>
    decreases commands.len() - from,
{
    if from >= commands.len() {
        None
    } else if has_alias(commands[from as int].1, token) {
        Some(from)
    } else {
        alias_from(commands, token, from + 1)
    }
}

/// The entry that a word leads to: the one of that name, or else the first one
/// that has the word as an alias.
pub open spec fn entry_for(commands: Seq<(String, CommandEntry)>, token: Seq<char>) -> Option<nat> {
    match position_from(keys(keyed(commands)), token, 0) {
        Some(i) => Some(i),
        None => alias_from(commands, token, 0),
    }
}

/// Whether the list holds the text.
pub fn holds_text(list: &Vec<String>, text: &str) -> (r: bool)
    ensures
        r == texts(list@).contains(text@),
{
    let mut i: usize = 0;
    while i < list.len()
        invariant
            i <= list@.len(),
            forall|k: int| 0 <= k < i ==> texts(list@)[k] != text@,
        decreases list.len() - i,
    {
        assert(texts(list@)[i as int] == list@[i as int]@);
        if same(list[i].as_str(), text) {
            return true;
        }
        i += 1;
    }
    false
}

/// Looks up an entry by name, falling back to a leaf command's declared
/// `command_aliases`. Gives the position of the entry.
pub fn lookup_entry(commands: &Vec<(String, CommandEntry)>, token: &str) -> (r: Option<usize>)
    ensures
        match r {
            Some(i) => entry_for(commands@, token@) == Some(i as nat) && i < commands@.len(),
            None => entry_for(commands@, token@) is None,
        },
{
    if let Some(i) = find_key(commands, token) {
        return Some(i);
    }
    let mut i: usize = 0;
    while i < commands.len()
        invariant
            i <= commands@.len(),
            position_from(keys(keyed(commands@)), token@, 0) is None,
            alias_from(commands@, token@, 0) == alias_from(commands@, token@, i as nat),
        decreases commands.len() - i,
    {
        if let CommandEntry::Leaf(def) = &commands[i].1 {
            if holds_text(&def.command_aliases, token) {
                return Some(i);
            }
        }
        i += 1;
    }
    None
}

/// Result of resolving a command from argv tokens.
pub enum ResolvedCommand<'a> {
    /// A leaf command was found.
    Leaf {
        /// The command.
        command: &'a CommandDef,
        /// Names on the way to the command, with spaces between them.
        path: String,
        /// Tokens behind the command.
        rest: Vec<String>,
        /// Middleware of the groups on the way.
        collected_middleware: Vec<usize>,
        /// Output policy of the command or of the nearest group that has one.
        output_policy: Option<OutputPolicy>,
    },
    /// A fetch gateway was found; remaining tokens are curl-style input.
    Gateway {
        /// Number of the fetch handler.
        handler: usize,
        /// Names on the way to the gateway, with spaces between them.
        path: String,
        /// Tokens behind the gateway.
        rest: Vec<String>,
        /// Base path prefix for request URLs.
        base_path: Option<String>,
        /// Output policy of the gateway or of the nearest group that has one.
        output_policy: Option<OutputPolicy>,
    },
    /// A group was reached but no further subcommand specified.
    Help {
        /// Names on the way to the group, with spaces between them.
        path: String,
        /// Description of the group.
        description: Option<String>,
        /// Subcommands of the group.
        commands: &'a Vec<(String, CommandEntry)>,
    },
    /// No matching command was found.
    Error {
        /// The token that no entry answers to.
        error: String,
        /// Names on the way to the group that was searched.
        path: String,
    },
}

/// What words lead to.
pub enum Target {
    /// A leaf command.
    Leaf {
        /// The command.
        command: CommandDef,
        /// Names on the way to the command.
        path: Seq<Seq<char>>,
        /// Words behind the command.
        rest: Seq<Seq<char>>,
        /// Middleware of the groups on the way.
        middleware: Seq<usize>,
        /// Output policy of the command or of the nearest group that has one.
        policy: Option<OutputPolicy>,
    },
    /// A fetch gateway.
    Gateway {
        /// Number of the fetch handler.
        handler: usize,
        /// Names on the way to the gateway.
        path: Seq<Seq<char>>,
        /// Words behind the gateway.
        rest: Seq<Seq<char>>,
        /// Base path prefix for request URLs.
        base_path: Option<Seq<char>>,
        /// Output policy of the gateway or of the nearest group that has one.
        policy: Option<OutputPolicy>,
    },
    /// A group, with no words left.
    Help {
        /// Names on the way to the group.
        path: Seq<Seq<char>>,
        /// Description of the group.
        description: Option<Seq<char>>,
        /// Subcommands of the group.
        commands: Vec<(String, CommandEntry)>,
    },
    /// Nothing.
    Missing {
        /// The word that no entry answers to.
        word: Seq<char>,
        /// Names on the way to the group that was searched.
        path: Seq<Seq<char>>,
    },
}

/// The first policy, or the second where there is no first.
pub open spec fn policy_or(
    first: Option<OutputPolicy>,
    second: Option<OutputPolicy>,
) -> Option<OutputPolicy> {
    if first is Some {
        first
    } else {
        second
    }
}

/// Where the words `words` lead from `entry`, which `path` leads to.
pub open spec fn led(
    entry: CommandEntry,
    path: Seq<Seq<char>>,
    words: Seq<Seq<char>>,
    inherited: Option<OutputPolicy>,
    middleware: Seq<usize>,
) -> Target
    decreases words.len(),
{
    match entry {
        CommandEntry::Leaf(command) => Target::Leaf {
            command,
            path,
            rest: words,
            middleware,
            policy: policy_or(command.output_policy, inherited),
        },
        CommandEntry::FetchGateway { base_path, output_policy, handler, .. } => Target::Gateway {
            handler,
            path,
            rest: words,
            base_path: opt_text(base_path),
            policy: policy_or(output_policy, inherited),
        },
        CommandEntry::Group { description, commands, middleware: own, output_policy } => {
            if words.len() == 0 {
                Target::Help { path, description: opt_text(description), commands }
            } else {
                match entry_for(commands@, words[0]) {
                    Some(i) => led(
                        commands@[i as int].1,
                        path.push(commands@[i as int].0@),
                        words.skip(1),
                        policy_or(output_policy, inherited),
                        middleware + own@,
                    ),
                    None => Target::Missing { word: words[0], path },
                }
            }
        },
    }
}

/// Where the words `words` lead from the top of the tree.
pub open spec fn resolved(commands: Seq<(String, CommandEntry)>, words: Seq<Seq<char>>) -> Target {
    if words.len() == 0 {
        Target::Missing { word: "(none)"@, path: Seq::empty() }
    } else {
        match entry_for(commands, words[0]) {
            Some(i) => led(
                commands[i as int].1,
                seq![commands[i as int].0@],
                words.skip(1),
                None,
                Seq::empty(),
            ),
            None => Target::Missing { word: words[0], path: Seq::empty() },
        }
    }
}

/// Whether a result is what a target says, with the names of the path joined
/// by spaces.
pub open spec fn says(r: ResolvedCommand, target: Target) -> bool {
    match (r, target) {
        (
            ResolvedCommand::Leaf { command, path, rest, collected_middleware, output_policy },
            Target::Leaf { command: c, path: p, rest: w, middleware: m, policy },
        ) => *command == c && path@ == join(p, " "@) && texts(rest@) == w && collected_middleware@
            == m && output_policy == policy,
        (
            ResolvedCommand::Gateway { handler, path, rest, base_path, output_policy },
            Target::Gateway { handler: h, path: p, rest: w, base_path: b, policy },
        ) => handler == h && path@ == join(p, " "@) && texts(rest@) == w && opt_text(base_path)
            == b && output_policy == policy,
        (
            ResolvedCommand::Help { path, description, commands },
            Target::Help { path: p, description: d, commands: c },
        ) => path@ == join(p, " "@) && opt_text(description) == d && *commands == c,
        (
            ResolvedCommand::Error { error, path },
            Target::Missing { word, path: p },
        ) => error@ == word && path@ == join(p, " "@),
        _ => false,
    }
}

/// The texts of `v[from..]`.
pub fn texts_from(v: &Vec<String>, from: usize) -> (r: Vec<String>)
    requires
        from <= v@.len(),
    ensures
        texts(r@) == texts(v@).skip(from as int),
{
    let mut out: Vec<String> = Vec::new();
    append_texts(&mut out, v, from);
    assert(texts(out@) =~= texts(v@).skip(from as int));
    out
}

/// Walks argv tokens through the command tree to find the target command.
pub fn resolve_command<'a>(
    commands: &'a Vec<(String, CommandEntry)>,
    tokens: &Vec<String>,
) -> (r: ResolvedCommand<'a>)
    ensures
        says(r, resolved(commands@, texts(tokens@))),
{
    let ghost words = texts(tokens@);
    if tokens.len() == 0 {
        let none: Vec<String> = Vec::new();
        assert(texts(none@) =~= Seq::<Seq<char>>::empty());
        return ResolvedCommand::Error {
            error: "(none)".to_string(),
            path: join_texts(&none, " "),
        };
    }
    assert(words[0] == tokens@[0]@);
    let mut path: Vec<String> = Vec::new();
    assert(texts(path@) =~= Seq::<Seq<char>>::empty());
    let first: usize = match lookup_entry(commands, tokens[0].as_str()) {
        Some(i) => i,
        None => {
            return ResolvedCommand::Error {
                error: tokens[0].clone(),
                path: join_texts(&path, " "),
            };
        },
    };
    path.push(commands[first].0.clone());
    assert(texts(path@) =~= seq![commands@[first as int].0@]);
    let mut current: &'a CommandEntry = &commands[first].1;
    let mut inherited: Option<OutputPolicy> = None;
    let mut middleware: Vec<usize> = Vec::new();
    let mut at: usize = 1;
    loop
        invariant
            1 <= at <= tokens@.len(),
            words == texts(tokens@),
            led(*current, texts(path@), words.skip(at as int), inherited, middleware@)
                == resolved(commands@, words),
        decreases tokens.len() - at,
    {
        match current {
            CommandEntry::Leaf(def) => {
                let output_policy = match def.output_policy {
                    Some(policy) => Some(policy),
                    None => inherited,
                };
                return ResolvedCommand::Leaf {
                    command: def,
                    path: join_texts(&path, " "),
                    rest: texts_from(tokens, at),
                    collected_middleware: middleware,
                    output_policy,
                };
            },
            CommandEntry::Group { description, commands: sub_commands, middleware: own, output_policy } => {
                if at == tokens.len() {
                    return ResolvedCommand::Help {
                        path: join_texts(&path, " "),
                        description: copy_opt(description),
                        commands: sub_commands,
                    };
                }
                let ghost rest = words.skip(at as int);
                assert(rest[0] == tokens@[at as int]@);
                match lookup_entry(sub_commands, tokens[at].as_str()) {
                    Some(i) => {
                        let ghost was = texts(path@);
                        let ghost collected = middleware@;
                        path.push(sub_commands[i].0.clone());
                        assert(texts(path@) =~= was.push(sub_commands@[i as int].0@));
                        assert(rest.skip(1) =~= words.skip(at + 1));
                        extend(&mut middleware, own);
                        inherited =
                        match output_policy {
                            Some(policy) => Some(*policy),
                            None => inherited,
                        };
                        current = &sub_commands[i].1;
                        at += 1;
                    },
                    None => {
                        return ResolvedCommand::Error {
                            error: tokens[at].clone(),
                            path: join_texts(&path, " "),
                        };
                    },
                }
            },
            CommandEntry::FetchGateway { base_path, output_policy, handler, .. } => {
                let effective = match output_policy {
                    Some(policy) => Some(*policy),
                    None => inherited,
                };
                return ResolvedCommand::Gateway {
                    handler: *handler,
                    path: join_texts(&path, " "),
                    rest: texts_from(tokens, at),
                    base_path: copy_opt(base_path),
                    output_policy: effective,
                };
            },
        }
    }
}

/// Appends the numbers of one list to another.
pub fn extend(to: &mut Vec<usize>, more: &Vec<usize>)
    ensures
        final(to)@ == old(to)@ + more@,
{
    let ghost start = to@;
    let mut i: usize = 0;
    assert(start + more@.take(0) =~= start);
    while i < more.len()
        invariant
            i <= more@.len(),
            to@ == start + more@.take(i as int),
        decreases more.len() - i,
    {
        to.push(more[i]);
        assert(start + more@.take(i + 1) =~= (start + more@.take(i as int)).push(more@[i as int]));
        i += 1;
    }
    assert(more@.take(more@.len() as int) =~= more@);
}

/// The names at one level of the tree: of each entry its name, then the aliases
/// of a leaf.
pub open spec fn names_at(commands: Seq<(String, CommandEntry)>) -> Seq<Seq<char>>
    decreases commands.len(),
{
    if commands.len() == 0 {
        Seq::empty()
    } else {
        let head = names_at(commands.drop_last()).push(commands.last().0@);
        match commands.last().1 {
            CommandEntry::Leaf(def) => head + texts(def.command_aliases@),
            _ => head,
        }
    }
}

/// The subcommands of the group that the names lead to, where they lead to one.
pub open spec fn level(
    commands: Seq<(String, CommandEntry)>,
    names: Seq<Seq<char>>,
) -> Option<Seq<(String, CommandEntry)>>
    decreases names.len(),
{
    if names.len() == 0 {
        Some(commands)
    } else {
        match lookup(keyed(commands), names[0]) {
            Some(CommandEntry::Group { commands: sub, .. }) => level(sub@, names.skip(1)),
            _ => None,
        }
    }
}

/// The names of a path that is written with spaces.
pub open spec fn path_names(path: Seq<char>) -> Seq<Seq<char>> {
    if path.len() == 0 {
        Seq::empty()
    } else {
        split(path, ' ')
    }
}

/// Collects candidate command names (including leaf aliases) at the group
/// reached by following `path` (space-separated). An empty path returns the
/// top-level names.
pub fn candidates_at_path(commands: &Vec<(String, CommandEntry)>, path: &str) -> (r: Vec<String>)
    ensures
        texts(r@) == match level(commands@, path_names(path@)) {
            Some(found) => names_at(found),
            None => Seq::empty(),
        },
{
    let mut current = commands;
    let ghost names = path_names(path@);
    if !path.is_empty() {
        let segments = split_at_char(path, ' ');
        let mut i: usize = 0;
        assert(names.skip(0) =~= names);
        while i < segments.len()
            invariant
                i <= segments@.len(),
                names == texts(segments@),
                names == path_names(path@),
                level(current@, names.skip(i as int)) == level(commands@, names),
            decreases segments.len() - i,
        {
            assert(names.skip(i as int)[0] == segments@[i as int]@);
            assert(names.skip(i as int).skip(1) =~= names.skip(i + 1));
            match crate::table::get(current, segments[i].as_str()) {
                Some(CommandEntry::Group { commands: sub, .. }) => {
                    current = sub;
                },
                _ => {
                    let none: Vec<String> = Vec::new();
                    assert(texts(none@) =~= Seq::<Seq<char>>::empty());
                    return none;
                },
            }
            i += 1;
        }
        assert(names.skip(i as int) =~= Seq::<Seq<char>>::empty());
    }
    let mut out: Vec<String> = Vec::new();
    let mut i: usize = 0;
    assert(texts(out@) =~= names_at(current@.take(0)));
    while i < current.len()
        invariant
            i <= current@.len(),
            texts(out@) == names_at(current@.take(i as int)),
        decreases current.len() - i,
    {
        let ghost was = texts(out@);
        assert(current@.take(i + 1).drop_last() =~= current@.take(i as int));
        out.push(current[i].0.clone());
        assert(texts(out@) =~= was.push(current@[i as int].0@));
        if let CommandEntry::Leaf(def) = &current[i].1 {
            let ghost head = out@;
            append_texts(&mut out, &def.command_aliases, 0);
            assert(def.command_aliases@.skip(0) =~= def.command_aliases@);
            assert(texts(out@) =~= texts(head) + texts(def.command_aliases@));
        }
        i += 1;
    }
    assert(current@.take(current@.len() as int) =~= current@);
    out
}

// ---------------------------------------------------------------------------
// Laws
// ---------------------------------------------------------------------------

/// How many words were used and how many are left, whatever they lead to.
pub open spec fn accounts_for(target: Target, words: Seq<Seq<char>>, used: int) -> bool {
    match target {
        Target::Leaf { path, rest, .. } => path.len() >= used && path.len() <= words.len() && rest
            == words.skip(path.len() as int),
        Target::Gateway { path, rest, .. } => path.len() >= used && path.len() <= words.len()
            && rest == words.skip(path.len() as int),
        Target::Help { path, .. } => path.len() == words.len(),
        Target::Missing { word, path } => path.len() < words.len() && word
            == words[path.len() as int],
    }
}

proof fn lemma_led_accounts(
    entry: CommandEntry,
    path: Seq<Seq<char>>,
    words: Seq<Seq<char>>,
    inherited: Option<OutputPolicy>,
    middleware: Seq<usize>,
    all: Seq<Seq<char>>,
)
    requires
        path.len() <= all.len(),
        words == all.skip(path.len() as int),
    ensures
        accounts_for(led(entry, path, words, inherited, middleware), all, path.len() as int),
    decreases words.len(),
{
    if let CommandEntry::Group { commands, middleware: own, output_policy, .. } = entry {
        if words.len() > 0 {
            assert(words[0] == all[path.len() as int]);
            if let Some(i) = entry_for(commands@, words[0]) {
                assert(words.skip(1) =~= all.skip(path.len() as int + 1));
                lemma_led_accounts(
                    commands@[i as int].1,
                    path.push(commands@[i as int].0@),
                    words.skip(1),
                    policy_or(output_policy, inherited),
                    middleware + own@,
                    all,
                );
            }
        }
    }
}

/// Every word is accounted for: each name of the path stands for one word, the
/// words behind it are handed on in order, and where nothing is found the first
/// word that leads nowhere is named.
pub proof fn law_words_are_path_and_rest(
    commands: Seq<(String, CommandEntry)>,
    words: Seq<Seq<char>>,
)
    requires
        words.len() > 0,
    ensures
        accounts_for(resolved(commands, words), words, 0),
{
    if let Some(i) = entry_for(commands, words[0]) {
        lemma_led_accounts(
            commands[i as int].1,
            seq![commands[i as int].0@],
            words.skip(1),
            None,
            Seq::empty(),
            words,
        );
    }
}

/// A name always wins over an alias of another command.
pub proof fn law_names_win_over_aliases(
    commands: Seq<(String, CommandEntry)>,
    token: Seq<char>,
    i: int,
)
    requires
        0 <= i < commands.len(),
        commands[i].0@ == token,
    ensures
        entry_for(commands, token) is Some,
        commands[entry_for(commands, token)->0 as int].0@ == token,
{
    lemma_position_from(keys(keyed(commands)), token, 0);
    assert(keys(keyed(commands))[i] == token);
}

/// A word leads to the entry of that name, where there is none to the first leaf command
/// that has it as an alias, and nowhere otherwise.
pub proof fn law_words_lead_to_entries(commands: Seq<(String, CommandEntry)>, token: Seq<char>)
    ensures
        match entry_for(commands, token) {
            Some(i) => i < commands.len() && (commands[i as int].0@ == token || (
            commands[i as int].1 matches CommandEntry::Leaf(def) && texts(
                def.command_aliases@,
            ).contains(token))),
            None => forall|i: int|
                0 <= i < commands.len() ==> (#[trigger] commands[i]).0@ != token && !(
                commands[i].1 matches CommandEntry::Leaf(def) && texts(
                    def.command_aliases@,
                ).contains(token)),
        },
{
    let all = keys(keyed(commands));
    crate::table::lemma_position_from(all, token, 0);
    lemma_alias_from(commands, token, 0);
    assert forall|i: int| 0 <= i < commands.len() implies #[trigger] all[i]
        == commands[i].0@ by {}
    if entry_for(commands, token) is None {
        assert forall|i: int| 0 <= i < commands.len() implies (#[trigger] commands[i]).0@
            != token by {
            assert(all[i] != token);
        }
    }
}

proof fn lemma_alias_from(commands: Seq<(String, CommandEntry)>, token: Seq<char>, from: nat)
    ensures
        alias_from(commands, token, from) matches Some(i) ==> from <= i < commands.len()
            && has_alias(commands[i as int].1, token),
        alias_from(commands, token, from) is None ==> forall|i: int|
            from <= i < commands.len() ==> !has_alias((#[trigger] commands[i]).1, token),
    decreases commands.len() - from,
{
    if from < commands.len() && !has_alias(commands[from as int].1, token) {
        lemma_alias_from(commands, token, from + 1);
    }
}

/// A leaf command gets the words behind its path, the middleware of the groups on the
/// way and the output policy that is nearest to it; a gateway gets the words and the
/// policy likewise.
pub proof fn law_leaves_get_the_rest(
    entry: CommandEntry,
    path: Seq<Seq<char>>,
    words: Seq<Seq<char>>,
    inherited: Option<OutputPolicy>,
    groups: Seq<usize>,
)
    ensures
        entry matches CommandEntry::Leaf(def) ==> {
            let t = led(entry, path, words, inherited, groups);
            &&& t is Leaf
            &&& t->command == def
            &&& t->Leaf_path == path
            &&& t->Leaf_rest == words
            &&& t->middleware == groups
            &&& def.output_policy is Some ==> t->Leaf_policy == def.output_policy
            &&& def.output_policy is None ==> t->Leaf_policy == inherited
        },
        entry matches CommandEntry::FetchGateway { base_path, output_policy, handler, .. } ==> {
            let t = led(entry, path, words, inherited, groups);
            &&& t is Gateway
            &&& t->handler == handler
            &&& t->Gateway_path == path
            &&& t->Gateway_rest == words
            &&& t->base_path == opt_text(base_path)
            &&& output_policy is Some ==> t->Gateway_policy == output_policy
            &&& output_policy is None ==> t->Gateway_policy == inherited
        },
{
}

/// A group hands the words behind the first to the entry that the first leads to, with
/// its own policy before the one it got and its own middleware behind it. Without words
/// it is what help is about, and a word that leads nowhere is missing.
pub proof fn law_groups_lead_on(
    entry: CommandEntry,
    path: Seq<Seq<char>>,
    words: Seq<Seq<char>>,
    inherited: Option<OutputPolicy>,
    groups: Seq<usize>,
)
    requires
        entry is Group,
    ensures
        entry matches CommandEntry::Group {
            description,
            commands,
            middleware,
            output_policy,
        } ==> {
            &&& words.len() == 0 ==> led(entry, path, words, inherited, groups)
                == (Target::Help { path, description: opt_text(description), commands })
            &&& words.len() > 0 && entry_for(commands@, words[0]) is None ==> led(
                entry,
                path,
                words,
                inherited,
                groups,
            ) == (Target::Missing { word: words[0], path })
            &&& words.len() > 0 && entry_for(commands@, words[0]) is Some ==> {
                let next = commands@[entry_for(commands@, words[0])->0 as int];
                led(entry, path, words, inherited, groups) == led(
                    next.1,
                    path.push(next.0@),
                    words.skip(1),
                    if output_policy is Some {
                        output_policy
                    } else {
                        inherited
                    },
                    groups + middleware@,
                )
            }
        },
{
    reveal_with_fuel(led, 2);
}

/// The names that can be meant at a level are those of its entries, each with the
/// aliases of a leaf command behind it.
pub proof fn law_names_of_a_level(
    a: Seq<(String, CommandEntry)>,
    b: Seq<(String, CommandEntry)>,
    one: (String, CommandEntry),
)
    ensures
        names_at(a + b) == names_at(a) + names_at(b),
        one.1 matches CommandEntry::Leaf(def) ==> names_at(seq![one]) == seq![one.0@] + texts(
            def.command_aliases@,
        ),
        !(one.1 is Leaf) ==> names_at(seq![one]) == seq![one.0@],
    decreases b.len(),
{
    reveal_with_fuel(names_at, 2);
    assert(seq![one].drop_last() =~= Seq::empty());
    assert(names_at(seq![one].drop_last()) =~= Seq::empty());
    assert(Seq::<Seq<char>>::empty().push(one.0@) =~= seq![one.0@]);
    if b.len() == 0 {
        assert(a + b =~= a);
        assert(names_at(a) + names_at(b) =~= names_at(a));
    } else {
        law_names_of_a_level(a, b.drop_last(), one);
        assert((a + b).drop_last() =~= a + b.drop_last());
        assert((a + b).last() == b.last());
        assert(names_at(a + b) =~= names_at(a) + names_at(b));
    }
}

/// A path is the names between its spaces, and the empty path has none.
pub proof fn law_paths_are_names(names: Seq<Seq<char>>)
    requires
        names.len() > 0,
        forall|i: int|
            0 <= i < names.len() ==> (#[trigger] names[i]).len() > 0 && !names[i].contains(' '),
    ensures
        path_names(join(names, " "@)) == names,
        path_names(Seq::empty()).len() == 0,
{
    reveal_strlit(" ");
    assert(" "@ =~= seq![' ']);
    crate::text::law_joined_pieces_are_found(names, ' ');
    let s = join(names, " "@);
    assert(names[0].len() > 0);
    if s.len() == 0 {
        assert(split(s, ' ')[0].len() == 0);
    }
}

} // verus!
