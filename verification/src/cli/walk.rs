//! Walks over the command tree.

use vstd::prelude::*;
use crate::cli::tree::{entry_for, led, policy_or, resolved, CommandEntry, Target};
use crate::command::CommandDef;
use crate::output::OutputPolicy;
use crate::table::{
    inserted, keyed, keys, lemma_position_from, lemma_slot_from, lemma_sorted_inserted,
    position_from, slot_from, sorted,
};
use crate::text::{copy_opt, lemma_before_asymmetric, opt_text, texts};

verus! {

/// A leaf command and the names on the way to it.
pub struct LeafCommand<'a> {
    /// Names on the way to the command, its own name last.
    pub path: Vec<String>,
    /// The command.
    pub command: &'a CommandDef,
}

/// The paths and commands of a list of leaf commands.
pub open spec fn found(v: Seq<LeafCommand>) -> Seq<(Seq<Seq<char>>, CommandDef)> {
    v.map_values(|l: LeafCommand| (texts(l.path@), *l.command))
}

/// The leaf commands below an entry that `path` leads to.
pub open spec fn leaves_of(entry: CommandEntry, path: Seq<Seq<char>>) -> Seq<
    (Seq<Seq<char>>, CommandDef),
>
    decreases entry, 0nat,
{
    match entry {
        CommandEntry::Leaf(def) => seq![(path, def)],
        CommandEntry::Group { commands, .. } => leaves(commands@, path),
        CommandEntry::FetchGateway { .. } => Seq::empty(),
    }
}

/// The leaf commands of one level and of the groups in it, in the order of
/// their names, behind the names `prefix`.
pub open spec fn leaves(commands: Seq<(String, CommandEntry)>, prefix: Seq<Seq<char>>) -> Seq<
    (Seq<Seq<char>>, CommandDef),
>
    decreases commands, commands.len(),
{
    if commands.len() == 0 {
        Seq::empty()
    } else {
        leaves(commands.drop_last(), prefix) + leaves_of(
            commands.last().1,
            prefix.push(commands.last().0@),
        )
    }
}

/// The names `prefix` with one more behind them.
pub fn longer_path(prefix: &Vec<String>, name: &String) -> (r: Vec<String>)
    ensures
        texts(r@) == texts(prefix@).push(name@),
{
    let mut path = prefix.clone();
    path.push(name.clone());
    assert(texts(path@) =~= texts(prefix@).push(name@));
    path
}

/// Collects the leaf commands of one level and of the groups in it.
pub fn collect_leaves<'a>(
    commands: &'a Vec<(String, CommandEntry)>,
    prefix: &Vec<String>,
) -> (r: Vec<LeafCommand<'a>>)
    ensures
        found(r@) == leaves(commands@, texts(prefix@)),
    decreases *commands,
{
    let ghost base = texts(prefix@);
    let mut out: Vec<LeafCommand<'a>> = Vec::new();
    let mut i: usize = 0;
    assert(found(out@) =~= leaves(commands@.take(0), base));
    while i < commands.len()
        invariant
            i <= commands@.len(),
            base == texts(prefix@),
            found(out@) == leaves(commands@.take(i as int), base),
        decreases commands.len() - i,
    {
        let ghost was = found(out@);
        assert(commands@.take(i + 1).drop_last() =~= commands@.take(i as int));
        assert(commands@.take(i + 1).last() == commands@[i as int]);
        assert(decreases_to!(*commands => commands@[i as int].1));
        proof {
            reveal_with_fuel(leaves, 2);
            reveal_with_fuel(leaves_of, 2);
        }
        let path = longer_path(prefix, &commands[i].0);
        match &commands[i].1 {
            CommandEntry::Leaf(def) => {
                let ghost next = (texts(path@), *def);
                out.push(LeafCommand { path, command: def });
                assert(found(out@) =~= was + seq![next]);
            },
            CommandEntry::Group { commands: sub, .. } => {
                let mut inner = collect_leaves(sub, &path);
                let ghost more = found(inner@);
                out.append(&mut inner);
                assert(found(out@) =~= was + more);
            },
            CommandEntry::FetchGateway { .. } => {
                assert(was + Seq::<(Seq<Seq<char>>, CommandDef)>::empty() =~= was);
            },
        }
        i += 1;
    }
    assert(commands@.take(commands@.len() as int) =~= commands@);
    out
}

/// The groups below an entry that `path` leads to, with their descriptions.
pub open spec fn groups_of(entry: CommandEntry, path: Seq<Seq<char>>) -> Seq<
    (Seq<Seq<char>>, Option<Seq<char>>),
>
    decreases entry, 0nat,
{
    match entry {
        CommandEntry::Group { description, commands, .. } => seq![(path, opt_text(description))]
            + groups(commands@, path),
        _ => Seq::empty(),
    }
}

/// The groups of one level and of the groups in it, each before those in it.
pub open spec fn groups(commands: Seq<(String, CommandEntry)>, prefix: Seq<Seq<char>>) -> Seq<
    (Seq<Seq<char>>, Option<Seq<char>>),
>
    decreases commands, commands.len(),
{
    if commands.len() == 0 {
        Seq::empty()
    } else {
        groups(commands.drop_last(), prefix) + groups_of(
            commands.last().1,
            prefix.push(commands.last().0@),
        )
    }
}

/// A group and the names on the way to it.
pub struct GroupPath {
    /// Names on the way to the group, its own name last.
    pub path: Vec<String>,
    /// Description of the group.
    pub description: Option<String>,
}

/// The paths and descriptions of a list of groups.
pub open spec fn named_groups(v: Seq<GroupPath>) -> Seq<(Seq<Seq<char>>, Option<Seq<char>>)> {
    v.map_values(|g: GroupPath| (texts(g.path@), opt_text(g.description)))
}

/// Collects the groups of one level and of the groups in it.
pub fn collect_groups(commands: &Vec<(String, CommandEntry)>, prefix: &Vec<String>) -> (r: Vec<
    GroupPath,
>)
    ensures
        named_groups(r@) == groups(commands@, texts(prefix@)),
    decreases *commands,
{
    let ghost base = texts(prefix@);
    let mut out: Vec<GroupPath> = Vec::new();
    let mut i: usize = 0;
    assert(named_groups(out@) =~= groups(commands@.take(0), base));
    while i < commands.len()
        invariant
            i <= commands@.len(),
            base == texts(prefix@),
            named_groups(out@) == groups(commands@.take(i as int), base),
        decreases commands.len() - i,
    {
        let ghost was = named_groups(out@);
        assert(commands@.take(i + 1).drop_last() =~= commands@.take(i as int));
        assert(commands@.take(i + 1).last() == commands@[i as int]);
        assert(decreases_to!(*commands => commands@[i as int].1));
        proof {
            reveal_with_fuel(groups, 2);
            reveal_with_fuel(groups_of, 2);
        }
        if let CommandEntry::Group { description, commands: sub, .. } = &commands[i].1 {
            let path = longer_path(prefix, &commands[i].0);
            let mut inner = collect_groups(sub, &path);
            let ghost more = named_groups(inner@);
            let ghost next = (texts(path@), opt_text(*description));
            out.push(GroupPath { path, description: copy_opt(description) });
            out.append(&mut inner);
            assert(named_groups(out@) =~= was + (seq![next] + more));
        } else {
            assert(was + Seq::<(Seq<Seq<char>>, Option<Seq<char>>)>::empty() =~= was);
        }
        i += 1;
    }
    assert(commands@.take(commands@.len() as int) =~= commands@);
    out
}

/// Whether the names of an entry's subcommands are in order, on every level.
pub open spec fn entry_sorted(entry: CommandEntry) -> bool
    decreases entry, 0nat,
{
    match entry {
        CommandEntry::Group { commands, .. } => sorted(keyed(commands@)) && all_sorted(commands@),
        _ => true,
    }
}

/// Whether [`entry_sorted`] holds of every entry of a level.
pub open spec fn all_sorted(commands: Seq<(String, CommandEntry)>) -> bool
    decreases commands, commands.len(),
{
    commands.len() > 0 ==> all_sorted(commands.drop_last()) && entry_sorted(commands.last().1)
}

/// Whether the names of the commands are in order, on every level.
pub open spec fn tree_sorted(commands: Seq<(String, CommandEntry)>) -> bool {
    sorted(keyed(commands)) && all_sorted(commands)
}

/// [`all_sorted`] says something of each entry.
pub proof fn lemma_all_sorted(commands: Seq<(String, CommandEntry)>, i: int)
    requires
        all_sorted(commands),
        0 <= i < commands.len(),
    ensures
        entry_sorted(commands[i].1),
    decreases commands.len(),
{
    reveal_with_fuel(all_sorted, 2);
    if i < commands.len() - 1 {
        lemma_all_sorted(commands.drop_last(), i);
    }
}

/// [`all_sorted`] holds where [`entry_sorted`] holds of every entry.
pub proof fn lemma_all_sorted_from(commands: Seq<(String, CommandEntry)>)
    requires
        forall|i: int| 0 <= i < commands.len() ==> entry_sorted(#[trigger] commands[i].1),
    ensures
        all_sorted(commands),
    decreases commands.len(),
{
    reveal_with_fuel(all_sorted, 2);
    if commands.len() > 0 {
        assert forall|i: int| 0 <= i < commands.drop_last().len() implies entry_sorted(
            #[trigger] commands.drop_last()[i].1,
        ) by {
            assert(commands.drop_last()[i] == commands[i]);
        }
        lemma_all_sorted_from(commands.drop_last());
        assert(commands.last() == commands[commands.len() - 1]);
    }
}

/// A level stays in order where an entry in order is put into it.
pub proof fn lemma_all_sorted_inserted(
    was: Seq<(String, CommandEntry)>,
    now: Seq<(String, CommandEntry)>,
    name: Seq<char>,
    entry: CommandEntry,
)
    requires
        all_sorted(was),
        entry_sorted(entry),
        keyed(now) == inserted(keyed(was), name, entry),
    ensures
        all_sorted(now),
{
    lemma_slot_from(keys(keyed(was)), name, 0);
    assert forall|i: int| 0 <= i < now.len() implies entry_sorted(#[trigger] now[i].1) by {
        assert(keyed(now)[i].1 == now[i].1);
        let slot = slot_from(keys(keyed(was)), name, 0) as int;
        assert(keyed(now).len() == now.len());
        assert(keyed(was).len() == was.len());
        if i < slot {
            assert(keyed(now)[i] == keyed(was)[i]);
            lemma_all_sorted(was, i);
        } else if i > slot {
            if slot < was.len() && keyed(was)[slot].0 == name {
                assert(keyed(now)[i] == keyed(was)[i]);
                lemma_all_sorted(was, i);
            } else {
                assert(keyed(now)[i] == keyed(was)[i - 1]);
                lemma_all_sorted(was, i - 1);
            }
        }
    }
    lemma_all_sorted_from(now);
}

/// The names of a level stay in order where an entry in order is put into it.
pub proof fn lemma_tree_sorted_inserted(
    was: Seq<(String, CommandEntry)>,
    now: Seq<(String, CommandEntry)>,
    name: Seq<char>,
    entry: CommandEntry,
)
    requires
        tree_sorted(was),
        entry_sorted(entry),
        keyed(now) == inserted(keyed(was), name, entry),
    ensures
        tree_sorted(now),
{
    lemma_sorted_inserted(keyed(was), name, entry);
    lemma_all_sorted_inserted(was, now, name, entry);
}

/// The names of a level stay in order where an entry in order takes the place of one
/// with the same name.
pub proof fn lemma_tree_sorted_updated(
    was: Seq<(String, CommandEntry)>,
    now: Seq<(String, CommandEntry)>,
    i: int,
)
    requires
        tree_sorted(was),
        0 <= i < was.len(),
        now == was.update(i, now[i]),
        now[i].0@ == was[i].0@,
        entry_sorted(now[i].1),
    ensures
        tree_sorted(now),
{
    assert forall|k: int| 0 <= k < now.len() implies entry_sorted(#[trigger] now[k].1) by {
        if k != i {
            lemma_all_sorted(was, k);
        }
    }
    lemma_all_sorted_from(now);
    assert forall|k: int| 0 <= k < now.len() implies #[trigger] keyed(now)[k].0 == keyed(
        was,
    )[k].0 by {}
}

/// Each leaf command of a level is one below an entry of that level.
proof fn lemma_leaf_entry(
    commands: Seq<(String, CommandEntry)>,
    prefix: Seq<Seq<char>>,
    k: int,
) -> (at: (int, int))
    requires
        0 <= k < leaves(commands, prefix).len(),
    ensures
        0 <= at.0 < commands.len(),
        ({
            let below = leaves_of(commands[at.0].1, prefix.push(commands[at.0].0@));
            0 <= at.1 < below.len() && below[at.1] == leaves(commands, prefix)[k]
        }),
    decreases commands.len(),
{
    reveal_with_fuel(leaves, 2);
    let head = leaves(commands.drop_last(), prefix);
    if k < head.len() {
        lemma_leaf_entry(commands.drop_last(), prefix, k)
    } else {
        (commands.len() - 1, k - head.len())
    }
}

/// The words behind `path` on the path of a leaf command lead to it.
proof fn lemma_leaf_led(
    entry: CommandEntry,
    path: Seq<Seq<char>>,
    k: int,
    rest: Seq<Seq<char>>,
    inherited: Option<OutputPolicy>,
    middleware: Seq<usize>,
) -> (tail: Seq<Seq<char>>)
    requires
        entry_sorted(entry),
        0 <= k < leaves_of(entry, path).len(),
    ensures
        leaves_of(entry, path)[k].0 == path + tail,
        led(entry, path, tail + rest, inherited, middleware) matches Target::Leaf {
            command,
            path: p,
            rest: r,
            ..
        } && command == leaves_of(entry, path)[k].1 && p == path + tail && r == rest,
    decreases entry,
{
    match entry {
        CommandEntry::Leaf(def) => {
            let tail = Seq::<Seq<char>>::empty();
            assert(path + tail =~= path);
            assert(tail + rest =~= rest);
            tail
        },
        CommandEntry::Group { commands, middleware: own, output_policy, .. } => {
            reveal_with_fuel(leaves_of, 2);
            reveal_with_fuel(entry_sorted, 2);
            let (i, n) = lemma_leaf_entry(commands@, path, k);
            let name = commands@[i].0@;
            lemma_all_sorted(commands@, i);
            assert(decreases_to!(entry => commands@));
            assert(decreases_to!(commands@ => commands@[i].1));
            let inner = lemma_leaf_led(
                commands@[i].1,
                path.push(name),
                n,
                rest,
                policy_or(output_policy, inherited),
                middleware + own@,
            );
            let tail = seq![name] + inner;
            lemma_name_found(commands@, i);
            assert((tail + rest).skip(1) =~= inner + rest);
            assert(path.push(name) + inner =~= path + tail);
            tail
        },
        CommandEntry::FetchGateway { .. } => Seq::empty(),
    }
}

/// A name leads to its entry.
proof fn lemma_name_found(commands: Seq<(String, CommandEntry)>, i: int)
    requires
        sorted(keyed(commands)),
        0 <= i < commands.len(),
    ensures
        entry_for(commands, commands[i].0@) == Some(i as nat),
{
    let all = keys(keyed(commands));
    assert(all[i] == commands[i].0@);
    lemma_position_from(all, all[i], 0);
    let at = position_from(all, all[i], 0)->0;
    assert(keyed(commands)[at as int].0 == all[at as int]);
    assert(keyed(commands)[i].0 == all[i]);
    if at != i {
        lemma_before_asymmetric(all[i], all[i]);
    }
}

/// Every leaf command of the tree is run by its path: the names on the way to
/// it lead to it, and what is written behind them is handed to it.
pub proof fn law_listed_commands_resolve(
    commands: Seq<(String, CommandEntry)>,
    k: int,
    rest: Seq<Seq<char>>,
)
    requires
        tree_sorted(commands),
        0 <= k < leaves(commands, Seq::empty()).len(),
    ensures
        ({
            let (path, def) = leaves(commands, Seq::empty())[k];
            resolved(commands, path + rest) matches Target::Leaf { command, path: p, rest: r, .. }
                && command == def && p == path && r == rest
        }),
{
    let (i, n) = lemma_leaf_entry(commands, Seq::empty(), k);
    let name = commands[i].0@;
    lemma_all_sorted(commands, i);
    lemma_name_found(commands, i);
    let start = Seq::<Seq<char>>::empty().push(name);
    assert(start =~= seq![name]);
    let tail = lemma_leaf_led(commands[i].1, start, n, rest, None, Seq::empty());
    let path = leaves(commands, Seq::empty())[k].0;
    assert((path + rest).skip(1) =~= tail + rest);
    assert((path + rest)[0] == name);
}

/// Every leaf command is listed once, in the order of the entries: of a leaf command
/// that command under its path, of a group what is listed below it, and of a gateway
/// nothing.
pub proof fn law_leaves_are_all_listed(
    a: Seq<(String, CommandEntry)>,
    b: Seq<(String, CommandEntry)>,
    one: (String, CommandEntry),
    prefix: Seq<Seq<char>>,
)
    ensures
        leaves(a + b, prefix) == leaves(a, prefix) + leaves(b, prefix),
        one.1 matches CommandEntry::Leaf(def) ==> leaves(seq![one], prefix) == seq![
            (prefix.push(one.0@), def),
        ],
        one.1 matches CommandEntry::Group { commands, .. } ==> leaves(seq![one], prefix) == leaves(
            commands@,
            prefix.push(one.0@),
        ),
        one.1 is FetchGateway ==> leaves(seq![one], prefix).len() == 0,
    decreases b.len(),
{
    reveal_with_fuel(leaves, 2);
    reveal_with_fuel(leaves_of, 2);
    assert(seq![one].drop_last() =~= Seq::empty());
    assert(leaves(seq![one].drop_last(), prefix) =~= Seq::empty());
    assert(leaves(seq![one], prefix) =~= leaves_of(one.1, prefix.push(one.0@)));
    if b.len() == 0 {
        assert(a + b =~= a);
        assert(leaves(a, prefix) + leaves(b, prefix) =~= leaves(a, prefix));
    } else {
        law_leaves_are_all_listed(a, b.drop_last(), one, prefix);
        assert((a + b).drop_last() =~= a + b.drop_last());
        assert((a + b).last() == b.last());
        assert(leaves(a + b, prefix) =~= leaves(a, prefix) + leaves(b, prefix));
    }
}

} // verus!
