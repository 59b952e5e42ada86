//! Skill files of a package.

use vstd::prelude::*;
use vstd::string::StrSliceExecFns;
use vstd::utf8::{encode_utf8, is_ascii_chars, is_ascii_chars_encode_utf8};
use crate::agent_plugin::error::{fault_of, AgentPluginPublisherError, Fault};
use crate::agent_plugin::names::{is_skill_name, label, lower_or_digit, plugin_name, skill_name};
use crate::cli::tree::holds_text;
use crate::json::{json_string, parse_json_string, quoted, unquoted};
use crate::text::{
    cat, chars_of, from_byte, join, join_texts, lemma_join_split, lemma_split_pieces, lines,
    non_empty, occurs, occurs_at, opt_text, same, split, split_at_char, split_lines, strip_prefix,
    text_from_byte, texts, trim, trim_char, trim_end, trim_end_char, trim_leading, trim_start,
    trim_start_char, utf8_len, utf8_length, without_return,
};

verus! {

/// A skill file: the directory it is written to, and its content.
#[derive(Debug, Clone)]
pub struct SkillFile {
    /// Name of the directory; empty for the command line itself.
    pub dir: String,
    /// Content of the file.
    pub content: String,
}

// ---------------------------------------------------------------------------
// Frontmatter
// ---------------------------------------------------------------------------

/// The first line at or behind `from` that closes the frontmatter.
pub open spec fn closing_line(all: Seq<Seq<char>>, from: nat) -> Option<nat>
    decreases all.len() - from,
{
    if from >= all.len() {
        None
    } else if all[from as int] == "---"@ {
        Some(from)
    } else {
        closing_line(all, from + 1)
    }
}

/// The number of bytes of the first `n` lines, with one for the end of each.
pub open spec fn lines_bytes(all: Seq<Seq<char>>, n: nat) -> nat
    decreases n,
{
    if n == 0 {
        0
    } else {
        lines_bytes(all, (n - 1) as nat) + utf8_len(all[n - 1]) + 1
    }
}

/// Whether a text begins with a line that opens frontmatter.
pub open spec fn opens(content: Seq<char>) -> bool {
    lines(content).len() > 0 && lines(content)[0] == "---"@
}

/// The lines of the frontmatter of a skill file, and the text behind it. A text
/// without frontmatter is all body, and frontmatter that is not closed has no
/// body.
pub open spec fn frontmatter(content: Seq<char>) -> (Seq<Seq<char>>, Seq<char>) {
    if !opens(content) {
        (Seq::empty(), content)
    } else {
        let rest = lines(content.skip(4));
        match closing_line(rest, 0) {
            Some(i) => (
                rest.take(i as int),
                match from_byte(content, 4 + lines_bytes(rest, i + 1)) {
                    Some(tail) => trim_start_char(tail, '\n'),
                    None => Seq::empty(),
                },
            ),
            None => (rest, Seq::empty()),
        }
    }
}

/// Splits a skill file into the lines of its frontmatter and the text behind it.
pub fn split_frontmatter(content: &str) -> (r: (Vec<String>, String))
    requires
        content@ != "---"@,
    ensures
        (texts(r.0@), r.1@) == frontmatter(content@),
{
    let none: Vec<String> = Vec::new();
    assert(texts(none@) =~= Seq::empty());
    let first = split_lines(content);
    let ghost head = texts(first@);
    if first.len() == 0 {
        return (none, content.to_string());
    }
    assert(head[0] == first@[0]@);
    if !same(first[0].as_str(), "---") {
        return (none, content.to_string());
    }
    let x = chars_of(content);
    proof {
        lemma_opened_is_longer(content@);
    }
    let tail = crate::text::text_of(&x, 4, x.len());
    assert(x@.subrange(4, x@.len() as int) =~= content@.skip(4));
    let rest = split_lines(tail.as_str());
    let ghost all = texts(rest@);
    let mut front: Vec<String> = Vec::new();
    let mut consumed: u128 = 4;
    let mut i: usize = 0;
    assert(texts(front@) =~= all.take(0));
    while i < rest.len()
        invariant
            i <= rest.len(),
            x.len() == content@.len(),
            content@.len() >= 4,
            all == texts(rest@),
            all == lines(content@.skip(4)),
            opens(content@),
            texts(front@) == all.take(i as int),
            closing_line(all, 0) == closing_line(all, i as nat),
            consumed == 4 + lines_bytes(all, i as nat),
        decreases rest.len() - i,
    {
        let ghost was = texts(front@);
        assert(all[i as int] == rest@[i as int]@);
        let n: u128 = utf8_length(rest[i].as_str());
        proof {
            lemma_lines_bytes(content@.skip(4), i as nat + 1);
            lemma_utf8_bound(content@.skip(4));
            assert(lines_bytes(all, i as nat + 1) == lines_bytes(all, i as nat) + n + 1);
            assert(x.len() <= usize::MAX);
            assert(usize::MAX <= u64::MAX);
            assert(consumed + n + 1 <= 4 + 4 * u64::MAX + 1);
        }
        consumed = consumed + n + 1;
        if same(rest[i].as_str(), "---") {
            let body = match text_from_byte(content, consumed) {
                Some(text) => trim_leading(text.as_str(), '\n'),
                None => String::new(),
            };
            assert(body@ =~= frontmatter(content@).1);
            return (front, body);
        }
        front.push(rest[i].clone());
        assert(texts(front@) =~= was.push(all[i as int]));
        assert(all.take(i + 1) =~= all.take(i as int).push(all[i as int]));
        i += 1;
    }
    assert(all.take(all.len() as int) =~= all);
    let body = String::new();
    assert(body@ =~= Seq::<char>::empty());
    (front, body)
}

/// The rest of the first line at or behind `from` that begins with `key`.
pub open spec fn value_of(all: Seq<Seq<char>>, key: Seq<char>, from: nat) -> Option<Seq<char>>
    decreases all.len() - from,
{
    if from >= all.len() {
        None
    } else if key.is_prefix_of(all[from as int]) {
        Some(all[from as int].skip(key.len() as int))
    } else {
        value_of(all, key, from + 1)
    }
}

fn find_value(all: &Vec<String>, key: &str) -> (r: Option<String>)
    ensures
        opt_text(r) == value_of(texts(all@), key@, 0),
{
    let ghost lines = texts(all@);
    let mut i: usize = 0;
    while i < all.len()
        invariant
            i <= all@.len(),
            lines == texts(all@),
            value_of(lines, key@, 0) == value_of(lines, key@, i as nat),
        decreases all.len() - i,
    {
        assert(lines[i as int] == all@[i as int]@);
        if let Some(value) = strip_prefix(all[i].as_str(), key) {
            return Some(value);
        }
        i += 1;
    }
    None
}

/// The value of a line of frontmatter: what a JSON string holds, without
/// quotation marks around it where it is none, and the text itself otherwise.
pub open spec fn scalar(value: Seq<char>) -> Seq<char> {
    let text = trim_end(trim_start(value));
    if text.len() >= 2 && text[0] == '"' && text.last() == '"' {
        match unquoted(text) {
            Some(inner) => inner,
            None => trim_end_char(trim_start_char(text, '"'), '"'),
        }
    } else {
        text
    }
}

/// Reads the value of a line of frontmatter.
pub fn parse_yaml_scalar(value: &str) -> (r: String)
    ensures
        r@ == scalar(value@),
{
    let text = trim(value);
    let x = chars_of(text.as_str());
    if x.len() >= 2 && x[0] == '"' && x[x.len() - 1] == '"' {
        return match parse_json_string(text.as_str()) {
            Some(inner) => inner,
            None => trim_char(text.as_str(), '"'),
        };
    }
    text
}

// ---------------------------------------------------------------------------
// Names
// ---------------------------------------------------------------------------

/// The bytes of a text as characters, with dashes in place of dots.
pub open spec fn undotted(text: Seq<char>) -> Seq<char> {
    encode_utf8(text).map_values(
        |byte: u8|
            if byte == 46 {
                '-'
            } else {
                byte as char
            },
    )
}

/// The name of the skill of the command line itself: the parts of the plugin's name
/// between dots and dashes, with one dash between two of them.
pub open spec fn root_name(plugin: Seq<char>) -> Seq<char> {
    join(non_empty(split(undotted(plugin), '-')), "-"@)
}

/// Gives the bytes of a text as characters, with dashes in place of dots.
fn without_dots(text: &str) -> (r: String)
    ensures
        r@ == undotted(text@),
{
    let bytes = text.as_bytes_vec();
    let ghost all = undotted(text@);
    let mut out = String::new();
    let mut i: usize = 0;
    assert(out@ =~= all.take(0));
    while i < bytes.len()
        invariant
            i <= bytes@.len(),
            bytes@ == encode_utf8(text@),
            all == undotted(text@),
            out@ == all.take(i as int),
        decreases bytes.len() - i,
    {
        let byte = bytes[i];
        let c = if byte == 46 {
            '-'
        } else {
            byte as char
        };
        assert(c == all[i as int]);
        out.push(c);
        assert(all.take(i + 1) =~= all.take(i as int).push(all[i as int]));
        i += 1;
    }
    assert(all.take(all.len() as int) =~= all);
    out
}

/// Gives the name of the skill of the command line itself.
pub fn root_skill_name(plugin_name: &str) -> (r: String)
    ensures
        r@ == root_name(plugin_name@),
{
    let text = without_dots(plugin_name);
    let parts = split_at_char(text.as_str(), '-');
    let ghost all = split(text@, '-');
    let mut kept: Vec<String> = Vec::new();
    let mut i: usize = 0;
    assert(texts(kept@) =~= non_empty(all.take(0)));
    while i < parts.len()
        invariant
            i <= parts@.len(),
            all == texts(parts@),
            texts(kept@) == non_empty(all.take(i as int)),
        decreases parts.len() - i,
    {
        let ghost was = texts(kept@);
        assert(all[i as int] == parts@[i as int]@);
        assert(all.take(i + 1).drop_last() =~= all.take(i as int));
        assert(all.take(i + 1).last() == all[i as int]);
        if !parts[i].as_str().is_empty() {
            kept.push(parts[i].clone());
            assert(texts(kept@) =~= was.push(all[i as int]));
        }
        i += 1;
    }
    assert(all.take(all.len() as int) =~= all);
    join_texts(&kept, "-")
}

/// The name of a skill file: that of its directory, or of the command line
/// itself.
pub open spec fn file_name(plugin: Seq<char>, dir: Seq<char>) -> Seq<char> {
    if dir.len() == 0 {
        root_name(plugin)
    } else {
        dir
    }
}

// ---------------------------------------------------------------------------
// Portable skill files
// ---------------------------------------------------------------------------

/// The first text, or the second where there is no first.
pub open spec fn text_or(first: Option<Seq<char>>, second: Seq<char>) -> Seq<char> {
    match first {
        Some(s) => s,
        None => second,
    }
}

/// The description that the frontmatter of a skill file gives.
pub open spec fn description_of(front: Seq<Seq<char>>) -> Seq<char> {
    text_or(value_of(front, "description: "@, 0), "Run this plugin workflow."@)
}

/// What is wrong with a skill file.
pub open spec fn skill_file_fault(plugin: Seq<char>, dir: Seq<char>, content: Seq<char>) -> Option<
    Fault,
> {
    let name = file_name(plugin, dir);
    let description = description_of(frontmatter(content).0);
    if !skill_name(name) {
        Some(Fault::SkillName(name))
    } else if description.len() == 0 || description.len() > 1024 {
        Some(Fault::Description(name, description.len()))
    } else {
        None
    }
}

/// The lines of a portable skill file before its body.
pub open spec fn portable_lines(cli: Seq<char>, name: Seq<char>, front: Seq<Seq<char>>) -> Seq<
    Seq<char>,
> {
    seq![
        "---"@,
        "name: "@ + name,
        "description: "@ + quoted(description_of(front)),
        "metadata:"@,
        "  incurs.command: "@ + quoted(text_or(value_of(front, "command: "@, 0), cli)),
        "  incurs.requires_bin: "@ + quoted(text_or(value_of(front, "requires_bin: "@, 0), cli)),
        "---"@,
        ""@,
    ]
}

/// The content of a portable skill file.
pub open spec fn portable_content(cli: Seq<char>, name: Seq<char>, content: Seq<char>) -> Seq<char> {
    let (front, body) = frontmatter(content);
    join(portable_lines(cli, name, front).push(body), "\n"@)
}

fn or_text(first: Option<String>, second: &str) -> (r: String)
    ensures
        r@ == text_or(opt_text(first), second@),
{
    match first {
        Some(s) => s,
        None => second.to_string(),
    }
}

fn lines_of_portable(cli: &str, name: &str, front: &Vec<String>, body: String) -> (r: Vec<String>)
    ensures
        texts(r@) == portable_lines(cli@, name@, texts(front@)).push(body@),
{
    let ghost want = portable_lines(cli@, name@, texts(front@)).push(body@);
    let description = or_text(
        find_value(front, "description: "),
        "Run this plugin workflow.",
    );
    let command = or_text(find_value(front, "command: "), cli);
    let requires_bin = or_text(find_value(front, "requires_bin: "), cli);
    let mut out: Vec<String> = Vec::new();
    out.push("---".to_string());
    out.push(cat("name: ", name));
    out.push(cat("description: ", json_string(description.as_str()).as_str()));
    out.push("metadata:".to_string());
    out.push(cat("  incurs.command: ", json_string(command.as_str()).as_str()));
    out.push(cat("  incurs.requires_bin: ", json_string(requires_bin.as_str()).as_str()));
    out.push("---".to_string());
    out.push("".to_string());
    out.push(body);
    assert(texts(out@) =~= want);
    out
}

/// Makes a skill file portable: its name follows the rules for skills, and its
/// frontmatter holds nothing but the name, the description and how to run the
/// command.
pub fn portable_skill_file(cli: &str, plugin_name: &str, file: &SkillFile) -> (r: Result<
    SkillFile,
    AgentPluginPublisherError,
>)
    requires
        file.content@ != "---"@,
    ensures
        match r {
            Ok(f) => {
                let name = file_name(plugin_name@, file.dir@);
                &&& skill_file_fault(plugin_name@, file.dir@, file.content@) is None
                &&& f.dir@ == name
                &&& f.content@ == portable_content(cli@, name, file.content@)
            },
            Err(e) => skill_file_fault(plugin_name@, file.dir@, file.content@) == Some(e@),
        },
{
    let name = if chars_of(file.dir.as_str()).len() == 0 {
        root_skill_name(plugin_name)
    } else {
        file.dir.clone()
    };
    if !is_skill_name(name.as_str()) {
        return Err(AgentPluginPublisherError::InvalidSkillName { name });
    }
    let (front, body) = split_frontmatter(file.content.as_str());
    let description = or_text(
        find_value(&front, "description: "),
        "Run this plugin workflow.",
    );
    let len: usize = chars_of(description.as_str()).len();
    if len == 0 || len > 1024 {
        return Err(AgentPluginPublisherError::InvalidSkillDescription { name, len });
    }
    let lines = lines_of_portable(cli, name.as_str(), &front, body);
    Ok(SkillFile { dir: name, content: join_texts(&lines, "\n") })
}

// ---------------------------------------------------------------------------
// Authored skills
// ---------------------------------------------------------------------------

/// An authored skill: its name and its files.
#[derive(Debug)]
pub struct AuthoredSkill {
    /// Name of the skill.
    pub name: String,
    /// Files of the skill.
    pub files: Vec<AuthoredSkillFile>,
}

/// A file of an authored skill.
#[derive(Debug)]
pub struct AuthoredSkillFile {
    /// Where the file is.
    pub source: String,
    /// Path of the file below the directory of the skill.
    pub relative: String,
}

/// The name that an authored skill declares.
pub open spec fn declared_name(content: Seq<char>) -> Option<Seq<char>> {
    match value_of(frontmatter(content).0, "name: "@, 0) {
        Some(value) => Some(scalar(value)),
        None => None,
    }
}

/// What is wrong with an authored skill, given by the path of its directory, the
/// name of the directory and the content of its `SKILL.md`.
pub open spec fn authored_fault(
    path: Seq<char>,
    directory: Option<Seq<char>>,
    content: Seq<char>,
) -> Option<Fault> {
    match declared_name(content) {
        None => Some(Fault::SkillDirectory(path, "SKILL.md must declare name"@)),
        Some(name) => if !skill_name(name) {
            Some(Fault::SkillName(name))
        } else if directory != Some(name) {
            Some(
                Fault::SkillDirectory(path, "source directory name must match SKILL.md name"@),
            )
        } else {
            None
        },
    }
}

/// Checks an authored skill, and gives its name.
pub fn check_authored_skill(path: &str, directory: Option<&str>, content: &str) -> (r: Result<
    String,
    AgentPluginPublisherError,
>)
    requires
        content@ != "---"@,
    ensures
        ({
            let dir = match directory {
                Some(d) => Some(d@),
                None => None,
            };
            match r {
                Ok(name) => authored_fault(path@, dir, content@) is None && declared_name(content@)
                    == Some(name@),
                Err(e) => authored_fault(path@, dir, content@) == Some(e@),
            }
        }),
{
    let (front, _) = split_frontmatter(content);
    let name = match find_value(&front, "name: ") {
        Some(value) => parse_yaml_scalar(value.as_str()),
        None => {
            return Err(
                AgentPluginPublisherError::InvalidSkillDirectory {
                    path: path.to_string(),
                    reason: "SKILL.md must declare name".to_string(),
                },
            );
        },
    };
    if !is_skill_name(name.as_str()) {
        return Err(AgentPluginPublisherError::InvalidSkillName { name });
    }
    let matches = match directory {
        Some(d) => same(d, name.as_str()),
        None => false,
    };
    if !matches {
        return Err(
            AgentPluginPublisherError::InvalidSkillDirectory {
                path: path.to_string(),
                reason: "source directory name must match SKILL.md name".to_string(),
            },
        );
    }
    Ok(name)
}

/// What becomes of an entry of an authored skill's directory.
#[derive(Debug, Clone, Copy, PartialEq, Eq, Structural)]
pub enum SkillEntry {
    /// Its entries are looked at.
    Directory,
    /// It is copied.
    File,
    /// It is left out.
    Skipped,
}

/// Decides on an entry of an authored skill's directory: symbolic links and
/// entries that lead outside are refused.
pub fn check_skill_entry(
    path: &str,
    is_symlink: bool,
    is_inside: bool,
    is_dir: bool,
    is_file: bool,
) -> (r: Result<SkillEntry, AgentPluginPublisherError>)
    ensures
        match r {
            Ok(entry) => !is_symlink && is_inside && entry == (if is_dir {
                SkillEntry::Directory
            } else if is_file {
                SkillEntry::File
            } else {
                SkillEntry::Skipped
            }),
            Err(e) => (is_symlink || !is_inside) && e@ == Fault::SkillDirectory(
                path@,
                if is_symlink {
                    "symlinks are not copied into portable skill directories"@
                } else {
                    "source path resolves outside the skill directory"@
                },
            ),
        },
{
    if is_symlink {
        return Err(
            AgentPluginPublisherError::InvalidSkillDirectory {
                path: path.to_string(),
                reason: "symlinks are not copied into portable skill directories".to_string(),
            },
        );
    }
    if !is_inside {
        return Err(
            AgentPluginPublisherError::InvalidSkillDirectory {
                path: path.to_string(),
                reason: "source path resolves outside the skill directory".to_string(),
            },
        );
    }
    if is_dir {
        Ok(SkillEntry::Directory)
    } else if is_file {
        Ok(SkillEntry::File)
    } else {
        Ok(SkillEntry::Skipped)
    }
}

/// The names of skills, generated ones first.
pub open spec fn all_names(generated: Seq<SkillFile>, authored: Seq<AuthoredSkill>) -> Seq<
    Seq<char>,
> {
    generated.map_values(|f: SkillFile| f.dir@) + authored.map_values(|s: AuthoredSkill| s.name@)
}

/// The first name at or behind `from` that occurs before.
pub open spec fn repeated_name(names: Seq<Seq<char>>, from: nat) -> Option<Seq<char>>
    decreases names.len() - from,
{
    if from >= names.len() {
        None
    } else if names.take(from as int).contains(names[from as int]) {
        Some(names[from as int])
    } else {
        repeated_name(names, from + 1)
    }
}

/// Checks that no two skills have the same name.
pub fn validate_unique_skill_names(generated: &Vec<SkillFile>, authored: &Vec<AuthoredSkill>) -> (r:
    Result<(), AgentPluginPublisherError>)
    ensures
        fault_of(r) == match repeated_name(all_names(generated@, authored@), 0) {
            Some(name) => Some(Fault::SkillName(name)),
            None => None,
        },
{
    let ghost all = all_names(generated@, authored@);
    let mut names: Vec<String> = Vec::new();
    let mut i: usize = 0;
    while i < generated.len()
        invariant
            i <= generated@.len(),
            all == all_names(generated@, authored@),
            texts(names@) == all.take(i as int),
            repeated_name(all, 0) == repeated_name(all, i as nat),
        decreases generated.len() - i,
    {
        let ghost was = texts(names@);
        assert(all[i as int] == generated@[i as int].dir@);
        if holds_text(&names, generated[i].dir.as_str()) {
            return Err(
                AgentPluginPublisherError::InvalidSkillName { name: generated[i].dir.clone() },
            );
        }
        names.push(generated[i].dir.clone());
        assert(texts(names@) =~= was.push(all[i as int]));
        assert(all.take(i + 1) =~= all.take(i as int).push(all[i as int]));
        i += 1;
    }
    let mut k: usize = 0;
    while k < authored.len()
        invariant
            k <= authored@.len(),
            all == all_names(generated@, authored@),
            texts(names@) == all.take(generated@.len() + k),
            repeated_name(all, 0) == repeated_name(all, (generated@.len() + k) as nat),
        decreases authored.len() - k,
    {
        let ghost was = texts(names@);
        let ghost at = generated@.len() + k;
        assert(all[at] == authored@[k as int].name@);
        if holds_text(&names, authored[k].name.as_str()) {
            return Err(
                AgentPluginPublisherError::InvalidSkillName { name: authored[k].name.clone() },
            );
        }
        names.push(authored[k].name.clone());
        assert(texts(names@) =~= was.push(all[at]));
        assert(all.take(at + 1) =~= all.take(at).push(all[at]));
        k += 1;
    }
    Ok(())
}

// ---------------------------------------------------------------------------
// Laws
// ---------------------------------------------------------------------------

/// Whether a text is made of lowercase letters and digits, and not empty.
spec fn plain_part(s: Seq<char>) -> bool {
    s.len() > 0 && forall|i: int| 0 <= i < s.len() ==> lower_or_digit(#[trigger] s[i])
}

/// Whether no two dashes stand behind each other.
spec fn single_dashes(s: Seq<char>) -> bool {
    forall|i: int| 0 <= i < s.len() - 1 ==> !(#[trigger] s[i] == '-' && s[i + 1] == '-')
}

/// A text in which no two dashes stand behind each other does not hold two dashes.
proof fn lemma_single_dashes(s: Seq<char>)
    ensures
        single_dashes(s) <==> !occurs(s, "--"@),
{
    reveal_strlit("--");
    if occurs(s, "--"@) {
        let i = choose|i: int| occurs_at(s, "--"@, i);
        assert(s.subrange(i, i + 2)[0] == s[i]);
        assert(s.subrange(i, i + 2)[1] == s[i + 1]);
    }
    if !single_dashes(s) {
        let i = choose|i: int|
            0 <= i < s.len() - 1 && #[trigger] s[i] == '-' && s[i + 1] == '-';
        assert(s.subrange(i, i + 2) =~= "--"@);
        assert(occurs_at(s, "--"@, i));
    }
}

/// Parts joined with dashes are a label without two dashes behind each other.
proof fn lemma_joined_parts(parts: Seq<Seq<char>>)
    requires
        parts.len() > 0,
        forall|i: int| 0 <= i < parts.len() ==> plain_part(#[trigger] parts[i]),
    ensures
        label(join(parts, "-"@), false),
        single_dashes(join(parts, "-"@)),
    decreases parts.len(),
{
    reveal_strlit("-");
    if parts.len() > 1 {
        let head = parts.drop_last();
        assert forall|i: int| 0 <= i < head.len() implies plain_part(#[trigger] head[i]) by {
            assert(head[i] == parts[i]);
        }
        lemma_joined_parts(head);
        assert(plain_part(parts[parts.len() - 1]));
        let before = join(head, "-"@);
        let all = join(parts, "-"@);
        let last = parts.last();
        assert(all == before + "-"@ + last);
        assert forall|i: int| 0 <= i < all.len() implies lower_or_digit(#[trigger] all[i]) || all[i]
            == '-' by {
            if i < before.len() {
                assert(all[i] == before[i]);
            } else if i > before.len() {
                assert(all[i] == last[i - before.len() - 1]);
            }
        }
        assert(all[0] == before[0]);
        assert(all.last() == last[last.len() - 1]);
        assert forall|i: int| 0 <= i < all.len() - 1 implies !(#[trigger] all[i] == '-' && all[i
            + 1] == '-') by {
            if i + 1 < before.len() {
                assert(all[i] == before[i] && all[i + 1] == before[i + 1]);
            } else if i + 1 == before.len() {
                assert(all[i] == before.last());
            } else {
                assert(all[i + 1] == last[i - before.len()]);
            }
        }
    } else {
        assert(plain_part(parts[0]));
    }
}

/// What is kept of parts is among them, and is not empty.
proof fn lemma_kept_parts(parts: Seq<Seq<char>>, i: int)
    requires
        0 <= i < non_empty(parts).len(),
    ensures
        non_empty(parts)[i].len() > 0,
        parts.contains(non_empty(parts)[i]),
    decreases parts.len(),
{
    let head = parts.drop_last();
    if i < non_empty(head).len() {
        lemma_kept_parts(head, i);
        let k = choose|k: int| 0 <= k < head.len() && head[k] == non_empty(head)[i];
        assert(parts[k] == non_empty(head)[i]);
    } else {
        assert(parts[parts.len() - 1] == parts.last());
    }
}

/// Leaving empty parts out makes the joined text no longer.
proof fn lemma_kept_length(parts: Seq<Seq<char>>)
    ensures
        join(non_empty(parts), "-"@).len() <= join(parts, "-"@).len(),
        non_empty(parts).len() <= parts.len(),
    decreases parts.len(),
{
    reveal_strlit("-");
    if parts.len() > 0 {
        let head = parts.drop_last();
        lemma_kept_length(head);
        if parts.last().len() > 0 {
            let kept = non_empty(head).push(parts.last());
            assert(kept.drop_last() =~= non_empty(head));
            assert(kept.last() == parts.last());
            if head.len() == 0 {
                assert(non_empty(head).len() == 0);
            }
        }
    }
}

/// The characters of a part are characters of the text.
proof fn lemma_part_characters(s: Seq<char>, i: int, k: int)
    requires
        0 <= i < split(s, '-').len(),
        0 <= k < split(s, '-')[i].len(),
    ensures
        s.contains(split(s, '-')[i][k]),
    decreases s.len(),
{
    if s.len() > 0 {
        let head = s.drop_last();
        let before = split(head, '-');
        lemma_split_pieces(head, '-');
        let c = split(s, '-')[i][k];
        if i < before.len() && k < before[i].len() {
            lemma_part_characters(head, i, k);
            let at = choose|at: int| 0 <= at < head.len() && head[at] == c;
            assert(s[at] == c);
        } else {
            assert(s[s.len() - 1] == c);
        }
    }
}

/// A text with a character that is no dash has a part that is not empty.
proof fn lemma_some_part(s: Seq<char>, at: int)
    requires
        0 <= at < s.len(),
        s[at] != '-',
    ensures
        non_empty(split(s, '-')).len() > 0,
{
    lemma_split_pieces(s, '-');
    if non_empty(split(s, '-')).len() == 0 {
        lemma_nothing_kept(split(s, '-'));
        lemma_join_split(s, '-');
        lemma_only_dashes(split(s, '-'), at);
    }
}

proof fn lemma_nothing_kept(parts: Seq<Seq<char>>)
    requires
        non_empty(parts).len() == 0,
    ensures
        forall|i: int| 0 <= i < parts.len() ==> (#[trigger] parts[i]).len() == 0,
    decreases parts.len(),
{
    if parts.len() > 0 {
        let head = parts.drop_last();
        lemma_nothing_kept(head);
        assert forall|i: int| 0 <= i < parts.len() implies (#[trigger] parts[i]).len() == 0 by {
            if i < head.len() {
                assert(head[i] == parts[i]);
            }
        }
    }
}

proof fn lemma_only_dashes(parts: Seq<Seq<char>>, at: int)
    requires
        forall|i: int| 0 <= i < parts.len() ==> (#[trigger] parts[i]).len() == 0,
        0 <= at < join(parts, seq!['-']).len(),
    ensures
        join(parts, seq!['-'])[at] == '-',
    decreases parts.len(),
{
    if parts.len() > 1 {
        let head = parts.drop_last();
        assert forall|i: int| 0 <= i < head.len() implies (#[trigger] head[i]).len() == 0 by {
            assert(head[i] == parts[i]);
        }
        assert(parts[parts.len() - 1].len() == 0);
        if at < join(head, seq!['-']).len() {
            lemma_only_dashes(head, at);
        }
    } else if parts.len() == 1 {
        assert(parts[0].len() == 0);
    }
}

/// The characters of a plugin's name, with dashes in place of dots.
proof fn lemma_undotted_name(s: Seq<char>)
    requires
        label(s, true),
    ensures
        undotted(s).len() == s.len(),
        forall|i: int|
            0 <= i < s.len() ==> #[trigger] undotted(s)[i] == (if s[i] == '.' {
                '-'
            } else {
                s[i]
            }),
{
    assert forall|i: int| 0 <= i < s.len() implies '\0' <= #[trigger] s[i] <= '\u{7f}' by {
        assert(lower_or_digit(s[i]) || s[i] == '-' || s[i] == '.');
    }
    assert(is_ascii_chars(s));
    is_ascii_chars_encode_utf8(s);
    assert forall|i: int| 0 <= i < s.len() implies #[trigger] undotted(s)[i] == (if s[i] == '.' {
        '-'
    } else {
        s[i]
    }) by {
        assert(lower_or_digit(s[i]) || s[i] == '-' || s[i] == '.');
        assert(s[i] as u8 == encode_utf8(s)[i]);
    }
}

/// The name of a plugin gives the name of a skill.
pub proof fn law_plugin_names_give_skill_names(plugin: Seq<char>)
    requires
        plugin_name(plugin),
    ensures
        skill_name(root_name(plugin)),
{
    let text = undotted(plugin);
    let parts = split(text, '-');
    let kept = non_empty(parts);
    lemma_undotted_name(plugin);
    lemma_split_pieces(text, '-');
    assert forall|i: int| 0 <= i < kept.len() implies plain_part(#[trigger] kept[i]) by {
        lemma_kept_parts(parts, i);
        let n = choose|n: int| 0 <= n < parts.len() && parts[n] == kept[i];
        assert forall|k: int| 0 <= k < kept[i].len() implies lower_or_digit(
            #[trigger] kept[i][k],
        ) by {
            lemma_part_characters(text, n, k);
            let at = choose|at: int| 0 <= at < text.len() && text[at] == parts[n][k];
            assert(!parts[n].contains('-'));
            assert(parts[n][k] != '-');
            assert(text[at] != '-');
            assert(lower_or_digit(plugin[at]) || plugin[at] == '-' || plugin[at] == '.');
        }
    }
    assert(text[0] == plugin[0]);
    lemma_some_part(text, 0);
    lemma_joined_parts(kept);
    lemma_single_dashes(root_name(plugin));
    lemma_kept_length(parts);
    lemma_join_split(text, '-');
    reveal_strlit("-");
    assert("-"@ =~= seq!['-']);
}

/// Of a text without dashes at its ends and without two behind each other, no part is
/// empty.
proof fn lemma_all_kept(s: Seq<char>)
    requires
        s.len() > 0,
        s[0] != '-',
        single_dashes(s),
    ensures
        s.last() != '-' ==> non_empty(split(s, '-')) == split(s, '-'),
        s.last() == '-' ==> non_empty(split(s, '-').drop_last()) == split(s, '-').drop_last()
            && split(s, '-').last().len() == 0,
        s.last() != '-' ==> split(s, '-').last().len() > 0,
    decreases s.len(),
{
    let head = s.drop_last();
    let before = split(head, '-');
    let all = split(s, '-');
    lemma_split_pieces(head, '-');
    if head.len() == 0 {
        assert(before =~= seq![Seq::<char>::empty()]);
        assert(all =~= seq![Seq::<char>::empty().push(s.last())]);
        assert(all.drop_last() =~= Seq::empty());
        reveal_with_fuel(non_empty, 2);
        assert(non_empty(all) =~= all);
    } else {
        assert forall|i: int| 0 <= i < head.len() - 1 implies !(#[trigger] head[i] == '-' && head[i
            + 1] == '-') by {
            assert(head[i] == s[i] && head[i + 1] == s[i + 1]);
        }
        lemma_all_kept(head);
        assert(head.last() == s[s.len() - 2]);
        if s.last() == '-' {
            assert(s[s.len() - 2] != '-');
            assert(all.drop_last() =~= before);
        } else {
            assert(all.drop_last() =~= before.drop_last());
            assert(all.last() == before.last().push(s.last()));
            if head.last() != '-' {
                assert(non_empty(before) == before);
                assert(before.drop_last().push(before.last()) =~= before);
                assert(non_empty(before) == non_empty(before.drop_last()).push(before.last()));
                assert(non_empty(before.drop_last()) =~= before.drop_last()) by {
                    assert(non_empty(before).drop_last() =~= non_empty(before.drop_last()));
                    assert(before.drop_last() == non_empty(before).drop_last());
                }
            }
            assert(all.drop_last().push(all.last()) =~= all);
        }
    }
}

/// The name of a plugin without dots is that of its skill.
pub proof fn law_names_without_dots_are_kept(plugin: Seq<char>)
    requires
        plugin_name(plugin),
        !plugin.contains('.'),
    ensures
        root_name(plugin) == plugin,
{
    lemma_undotted_name(plugin);
    assert(undotted(plugin) =~= plugin) by {
        assert forall|i: int| 0 <= i < plugin.len() implies undotted(plugin)[i] == plugin[i] by {
            assert(plugin[i] != '.');
        }
    }
    lemma_single_dashes(plugin);
    lemma_all_kept(plugin);
    lemma_join_split(plugin, '-');
    reveal_strlit("-");
    assert("-"@ =~= seq!['-']);
}

/// Where no name is found repeated, no two skills have the same name.
pub proof fn law_unique_names_differ(names: Seq<Seq<char>>, from: nat, i: int, j: int)
    requires
        repeated_name(names, from) is None,
        0 <= i < j < names.len(),
        from <= j,
    ensures
        names[i] != names[j],
    decreases names.len() - from,
{
    if from < j {
        law_unique_names_differ(names, from + 1, i, j);
    } else {
        assert(names.take(j)[i] == names[i]);
    }
}

/// The bytes of pieces, with one for the separator behind each.
spec fn pieces_bytes(pieces: Seq<Seq<char>>) -> nat
    decreases pieces.len(),
{
    if pieces.len() == 0 {
        0
    } else {
        pieces_bytes(pieces.drop_last()) + utf8_len(pieces.last()) + 1
    }
}

/// The pieces between line feeds and the line feeds make up the text.
proof fn lemma_pieces_bytes(s: Seq<char>)
    ensures
        pieces_bytes(split(s, '\n')) == utf8_len(s) + 1,
    decreases s.len(),
{
    let all = split(s, '\n');
    if s.len() == 0 {
        assert(all.drop_last() =~= Seq::empty());
        reveal_with_fuel(pieces_bytes, 2);
    } else {
        let before = split(s.drop_last(), '\n');
        lemma_pieces_bytes(s.drop_last());
        lemma_split_pieces(s.drop_last(), '\n');
        if s.last() == '\n' {
            assert(all.drop_last() =~= before);
        } else {
            assert(all.drop_last() =~= before.drop_last());
            assert(all.last().drop_last() =~= before.last());
        }
    }
}

/// Fewer pieces have fewer bytes.
proof fn lemma_fewer_pieces(pieces: Seq<Seq<char>>, n: int)
    requires
        0 <= n <= pieces.len(),
    ensures
        pieces_bytes(pieces.take(n)) <= pieces_bytes(pieces),
    decreases pieces.len() - n,
{
    if n < pieces.len() {
        lemma_fewer_pieces(pieces, n + 1);
        assert(pieces.take(n + 1).drop_last() =~= pieces.take(n));
    } else {
        assert(pieces.take(n) =~= pieces);
    }
}

/// The lines of a text have no more bytes than the text, but for the end of the
/// last one.
proof fn lemma_lines_bytes(s: Seq<char>, n: nat)
    requires
        n <= lines(s).len(),
    ensures
        lines_bytes(lines(s), n) <= utf8_len(s) + 1,
{
    lemma_split_pieces(s, '\n');
    lemma_pieces_bytes(s);
    lemma_fewer_pieces(split(s, '\n'), n as int);
    lemma_lines_are_pieces(s, n);
}

proof fn lemma_lines_are_pieces(s: Seq<char>, n: nat)
    requires
        n <= lines(s).len(),
        split(s, '\n').len() >= 1,
    ensures
        n <= split(s, '\n').len(),
        lines_bytes(lines(s), n) <= pieces_bytes(split(s, '\n').take(n as int)),
    decreases n,
{
    let pieces = split(s, '\n');
    if n > 0 {
        lemma_lines_are_pieces(s, (n - 1) as nat);
        assert(pieces.take(n as int).drop_last() =~= pieces.take(n - 1));
        let piece = pieces[n - 1];
        if n - 1 < pieces.len() - 1 {
            assert(lines(s)[n - 1] == without_return(piece));
            if piece.len() > 0 && piece.last() == '\r' {
                assert(utf8_len(piece.drop_last()) <= utf8_len(piece));
            }
        }
    }
}

/// A character takes at most four bytes.
proof fn lemma_utf8_bound(s: Seq<char>)
    ensures
        utf8_len(s) <= 4 * s.len(),
    decreases s.len(),
{
    if s.len() > 0 {
        lemma_utf8_bound(s.drop_last());
    }
}

/// The first piece of a text that holds the separator is shorter than the text.
proof fn lemma_first_piece(s: Seq<char>, c: char)
    ensures
        split(s, c).len() == 1 ==> split(s, c)[0] == s,
        split(s, c).len() >= 2 ==> split(s, c)[0].len() < s.len(),
    decreases s.len(),
{
    if s.len() > 0 {
        lemma_first_piece(s.drop_last(), c);
        lemma_split_pieces(s.drop_last(), c);
        let before = split(s.drop_last(), c);
        if s.last() != c && before.len() == 1 {
            assert(split(s, c)[0] =~= s);
        }
    } else {
        assert(split(s, c)[0] =~= s);
    }
}

/// A text that opens frontmatter is longer than the line that opens it.
proof fn lemma_opened_is_longer(content: Seq<char>)
    requires
        opens(content),
        content != "---"@,
    ensures
        content.len() >= 4,
{
    reveal_strlit("---");
    lemma_first_piece(content, '\n');
    lemma_split_pieces(content, '\n');
    let pieces = split(content, '\n');
    if pieces.len() == 1 {
        assert(lines(content) =~= seq![content]) by {
            assert(pieces.drop_last() =~= Seq::empty());
        }
    } else {
        assert(lines(content)[0] == without_return(pieces[0]));
    }
}

/// The closing line is the first one that is nothing but dashes.
pub proof fn law_first_closing_line_counts(all: Seq<Seq<char>>, from: nat)
    ensures
        closing_line(all, from) matches Some(i) ==> from <= i < all.len() && all[i as int] == "---"@
            && (forall|j: int| from <= j < i ==> #[trigger] all[j] != "---"@),
        closing_line(all, from) is None ==> forall|j: int|
            from <= j < all.len() ==> #[trigger] all[j] != "---"@,
    decreases all.len() - from,
{
    if from < all.len() && all[from as int] != "---"@ {
        law_first_closing_line_counts(all, from + 1);
    }
}

/// A text that does not open with dashes has no frontmatter: all of it is the body.
pub proof fn law_plain_texts_are_all_body(content: Seq<char>)
    requires
        lines(content).len() == 0 || lines(content)[0] != "---"@,
    ensures
        frontmatter(content).0.len() == 0,
        frontmatter(content).1 == content,
{
}

/// The frontmatter holds no closing line, and its lines are the first of the text.
pub proof fn law_frontmatter_ends_at_the_closing_line(content: Seq<char>)
    requires
        opens(content),
    ensures
        ({
            let front = frontmatter(content).0;
            let rest = lines(content.skip(4));
            &&& front.is_prefix_of(rest)
            &&& forall|j: int| 0 <= j < front.len() ==> #[trigger] front[j] != "---"@
            &&& front.len() < rest.len() ==> rest[front.len() as int] == "---"@
        }),
{
    let rest = lines(content.skip(4));
    law_first_closing_line_counts(rest, 0);
    let front = frontmatter(content).0;
    assert(rest.subrange(0, front.len() as int) =~= front);
}

/// The value of a key is what stands behind it in the first line that begins with it.
pub proof fn law_first_value_counts(all: Seq<Seq<char>>, key: Seq<char>, from: nat)
    ensures
        value_of(all, key, from) matches Some(value) ==> exists|i: int|
            from <= i < all.len() && #[trigger] all[i] == key + value && (forall|j: int|
                from <= j < i ==> !key.is_prefix_of(#[trigger] all[j])),
        value_of(all, key, from) is None ==> forall|j: int|
            from <= j < all.len() ==> !key.is_prefix_of(#[trigger] all[j]),
    decreases all.len() - from,
{
    if from < all.len() {
        if key.is_prefix_of(all[from as int]) {
            let line = all[from as int];
            assert(key =~= line.subrange(0, key.len() as int));
            assert(line =~= key + line.skip(key.len() as int));
        } else {
            law_first_value_counts(all, key, from + 1);
            if let Some(value) = value_of(all, key, from) {
                let i = choose|i: int|
                    from + 1 <= i < all.len() && #[trigger] all[i] == key + value && (forall|j: int|
                        from + 1 <= j < i ==> !key.is_prefix_of(#[trigger] all[j]));
                assert(all[i] == key + value);
            }
        }
    }
}

/// A generated skill is refused exactly for an invalid name or for a description that is
/// empty or too long.
pub proof fn law_sound_files_are_taken(plugin: Seq<char>, dir: Seq<char>, content: Seq<char>)
    ensures
        ({
            let name = if dir.len() == 0 {
                root_name(plugin)
            } else {
                dir
            };
            let description = match value_of(frontmatter(content).0, "description: "@, 0) {
                Some(text) => text,
                None => "Run this plugin workflow."@,
            };
            &&& skill_file_fault(plugin, dir, content) is None <==> skill_name(name) && 1
                <= description.len() <= 1024
            &&& !skill_name(name) ==> skill_file_fault(plugin, dir, content) == Some(
                Fault::SkillName(name),
            )
            &&& skill_name(name) && !(1 <= description.len() <= 1024) ==> skill_file_fault(
                plugin,
                dir,
                content,
            ) == Some(Fault::Description(name, description.len()))
        }),
{
}

/// A skill that someone wrote is taken exactly where it declares a valid name that is
/// that of its directory.
pub proof fn law_written_skills_are_named_like_their_directory(
    path: Seq<char>,
    directory: Option<Seq<char>>,
    content: Seq<char>,
)
    ensures
        authored_fault(path, directory, content) is None <==> (declared_name(content) matches Some(
            name,
        ) && skill_name(name) && directory == Some(name)),
        declared_name(content) matches Some(name) ==> (!skill_name(name) ==> authored_fault(
            path,
            directory,
            content,
        ) == Some(Fault::SkillName(name))),
        declared_name(content) is Some <==> value_of(frontmatter(content).0, "name: "@, 0) is Some,
{
}

/// A name is reported as repeated exactly where one is.
pub proof fn law_repeated_names_are_found(names: Seq<Seq<char>>, from: nat)
    ensures
        repeated_name(names, from) matches Some(name) ==> exists|i: int, j: int|
            0 <= i < j < names.len() && #[trigger] names[i] == name && #[trigger] names[j] == name,
    decreases names.len() - from,
{
    if from < names.len() {
        if names.take(from as int).contains(names[from as int]) {
            let head = names.take(from as int);
            let i = choose|i: int| 0 <= i < head.len() && head[i] == names[from as int];
            assert(names[i] == names[from as int]);
        } else {
            law_repeated_names_are_found(names, from + 1);
        }
    }
}

/// A portable skill opens with frontmatter that has the name, the quoted description and
/// the command; the body stands at its end.
pub proof fn law_portable_skills_keep_the_body(
    cli: Seq<char>,
    name: Seq<char>,
    content: Seq<char>,
)
    ensures
        ({
            let (front, body) = frontmatter(content);
            let all = portable_lines(cli, name, front);
            &&& ("\n"@ + body).is_suffix_of(portable_content(cli, name, content))
            &&& all[0] == "---"@
            &&& all[1] == "name: "@ + name
            &&& value_of(front, "description: "@, 0) matches Some(text) ==> all[2] == "description: "@
                + quoted(text)
            &&& value_of(front, "command: "@, 0) matches Some(text) ==> all[4]
                == "  incurs.command: "@ + quoted(text)
            &&& value_of(front, "command: "@, 0) is None ==> all[4] == "  incurs.command: "@
                + quoted(cli)
            &&& value_of(front, "requires_bin: "@, 0) matches Some(text) ==> all[5]
                == "  incurs.requires_bin: "@ + quoted(text)
            &&& value_of(front, "requires_bin: "@, 0) is None ==> all[5]
                == "  incurs.requires_bin: "@ + quoted(cli)
            &&& all[6] == "---"@
        }),
{
    let (front, body) = frontmatter(content);
    let all = portable_lines(cli, name, front);
    assert(all.push(body).drop_last() =~= all);
    let out = portable_content(cli, name, content);
    let tail = "\n"@ + body;
    assert(out == join(all, "\n"@) + "\n"@ + body);
    assert(out.subrange(out.len() - tail.len(), out.len() as int) =~= tail);
}

} // verus!
