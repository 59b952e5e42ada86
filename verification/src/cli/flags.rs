//! Built-in flags of the command line.

use vstd::prelude::*;
use crate::output::{format_named, Format};
use crate::text::{
    cat, cat3, opt_str, opt_text, parse_usize, parsed_up_to, same, starts_with, strip_prefix, texts,
};

verus! {

/// Extracted built-in flags from argv.
#[derive(Debug)]
pub struct BuiltinFlags {
    /// Whether the full output envelope is wanted.
    pub verbose: bool,
    /// Output format.
    pub format: Format,
    /// Whether the format was given on the command line.
    pub format_explicit: bool,
    /// Filter expression for the output.
    pub filter_output: Option<String>,
    /// Most tokens to write.
    pub token_limit: Option<usize>,
    /// Tokens to leave out at the start.
    pub token_offset: Option<usize>,
    /// Whether the number of tokens is wanted instead of the output.
    pub token_count: bool,
    /// Whether the command index is wanted.
    pub llms: bool,
    /// Whether the command index with schemas is wanted.
    pub llms_full: bool,
    /// Whether to serve MCP.
    pub mcp: bool,
    /// Whether help is wanted.
    pub help: bool,
    /// Whether the version is wanted.
    pub version: bool,
    /// Whether the schema of the command is wanted.
    pub schema: bool,
    /// Whether the schema of the config file is wanted.
    pub config_schema: bool,
    /// Config file given on the command line.
    pub config_path: Option<String>,
    /// Whether config files are switched off.
    pub config_disabled: bool,
    /// The words that are no built-in flag.
    pub rest: Vec<String>,
}

/// The flags that are either given or not.
pub struct Switches {
    /// Whether the full output envelope is wanted.
    pub verbose: bool,
    /// Whether the number of tokens is wanted instead of the output.
    pub token_count: bool,
    /// Whether the command index is wanted.
    pub llms: bool,
    /// Whether the command index with schemas is wanted.
    pub llms_full: bool,
    /// Whether to serve MCP.
    pub mcp: bool,
    /// Whether help is wanted.
    pub help: bool,
    /// Whether the version is wanted.
    pub version: bool,
    /// Whether the schema of the command is wanted.
    pub schema: bool,
    /// Whether the schema of the config file is wanted.
    pub config_schema: bool,
}

/// What [`BuiltinFlags`] mean.
pub struct Flags {
    /// The flags that are either given or not.
    pub switches: Switches,
    /// Output format.
    pub format: Format,
    /// Whether the format was given on the command line.
    pub format_explicit: bool,
    /// Filter expression for the output.
    pub filter_output: Option<Seq<char>>,
    /// Most tokens to write.
    pub token_limit: Option<usize>,
    /// Tokens to leave out at the start.
    pub token_offset: Option<usize>,
    /// Config file given on the command line.
    pub config_path: Option<Seq<char>>,
    /// Whether config files are switched off.
    pub config_disabled: bool,
    /// The words that are no built-in flag.
    pub rest: Seq<Seq<char>>,
}

impl BuiltinFlags {
    /// The flags that are either given or not.
    pub open spec fn switches(&self) -> Switches {
        Switches {
            verbose: self.verbose,
            token_count: self.token_count,
            llms: self.llms,
            llms_full: self.llms_full,
            mcp: self.mcp,
            help: self.help,
            version: self.version,
            schema: self.schema,
            config_schema: self.config_schema,
        }
    }
}

impl View for BuiltinFlags {
    type V = Flags;

    open spec fn view(&self) -> Flags {
        Flags {
            switches: self.switches(),
            format: self.format,
            format_explicit: self.format_explicit,
            filter_output: opt_text(self.filter_output),
            token_limit: self.token_limit,
            token_offset: self.token_offset,
            config_path: opt_text(self.config_path),
            config_disabled: self.config_disabled,
            rest: texts(self.rest@),
        }
    }
}

/// The flags of a command line that gives none.
pub open spec fn no_flags() -> Flags {
    Flags {
        switches: Switches {
            verbose: false,
            token_count: false,
            llms: false,
            llms_full: false,
            mcp: false,
            help: false,
            version: false,
            schema: false,
            config_schema: false,
        },
        format: Format::Toon,
        format_explicit: false,
        filter_output: None,
        token_limit: None,
        token_offset: None,
        config_path: None,
        config_disabled: false,
        rest: Seq::empty(),
    }
}

/// What a word on the command line is.
#[derive(Debug, Clone, Copy, PartialEq, Eq, Structural)]
pub enum Word {
    /// `--full-output`.
    FullOutput,
    /// `--llms`.
    Llms,
    /// `--llms-full`.
    LlmsFull,
    /// `--mcp`.
    Mcp,
    /// `--help` or `-h`.
    Help,
    /// `--version`.
    Version,
    /// `--schema`.
    Schema,
    /// `--config-schema`.
    ConfigSchema,
    /// `--json`.
    Json,
    /// `--format`, followed by its value.
    Format,
    /// The config flag, followed by its value.
    Config,
    /// The config flag with its value behind an equals sign.
    ConfigValue,
    /// The config flag in its negated form.
    NoConfig,
    /// `--filter-output`, followed by its value.
    FilterOutput,
    /// `--token-limit`, followed by its value.
    TokenLimit,
    /// `--token-offset`, followed by its value.
    TokenOffset,
    /// `--token-count`.
    TokenCount,
    /// Anything else.
    Other,
}

/// What the word `t` is as a form of the config flag, where there is one and the word is
/// one of its forms.
pub open spec fn config_form(t: Seq<char>, config: Option<Seq<char>>) -> Option<Word> {
    match config {
        Some(flag) => if t == "--"@ + flag {
            Some(Word::Config)
        } else if ("--"@ + flag + "="@).is_prefix_of(t) {
            Some(Word::ConfigValue)
        } else if t == "--no-"@ + flag {
            Some(Word::NoConfig)
        } else {
            None
        },
        None => None,
    }
}

/// What the word `t` is, on a command line with the config flag `config`.
#[verifier::opaque]
pub open spec fn classify(t: Seq<char>, config: Option<Seq<char>>) -> Word {
    if t == "--full-output"@ {
        Word::FullOutput
    } else if t == "--llms"@ {
        Word::Llms
    } else if t == "--llms-full"@ {
        Word::LlmsFull
    } else if t == "--mcp"@ {
        Word::Mcp
    } else if t == "--help"@ || t == "-h"@ {
        Word::Help
    } else if t == "--version"@ {
        Word::Version
    } else if t == "--schema"@ {
        Word::Schema
    } else if t == "--config-schema"@ {
        Word::ConfigSchema
    } else if t == "--json"@ {
        Word::Json
    } else if t == "--format"@ {
        Word::Format
    } else if config_form(t, config) is Some {
        config_form(t, config)->0
    } else if t == "--filter-output"@ {
        Word::FilterOutput
    } else if t == "--token-limit"@ {
        Word::TokenLimit
    } else if t == "--token-offset"@ {
        Word::TokenOffset
    } else if t == "--token-count"@ {
        Word::TokenCount
    } else {
        Word::Other
    }
}

/// Whether the value of the flag is the next word.
pub open spec fn takes_value(w: Word) -> bool {
    w == Word::Format || w == Word::Config || w == Word::FilterOutput || w == Word::TokenLimit || w
        == Word::TokenOffset
}

/// The message for a flag whose value is missing.
pub open spec fn missing_value(flag: Seq<char>) -> Seq<char> {
    "Missing value for flag: "@ + flag
}

/// The message for a flag whose value is no number.
pub open spec fn not_a_number(flag: Seq<char>, value: Seq<char>) -> Seq<char> {
    "Invalid value for "@ + flag + ": \""@ + value + "\". Expected a number"@
}

/// Whether the flag is one that is either given or not.
pub open spec fn is_switch(w: Word) -> bool {
    w == Word::FullOutput || w == Word::Llms || w == Word::LlmsFull || w == Word::Mcp || w
        == Word::Help || w == Word::Version || w == Word::Schema || w == Word::ConfigSchema || w
        == Word::TokenCount
}

/// The switches with the one that the flag stands for given.
pub open spec fn switched(s: Switches, w: Word) -> Switches {
    match w {
        Word::FullOutput => Switches { verbose: true, ..s },
        Word::Llms => Switches { llms: true, ..s },
        Word::LlmsFull => Switches { llms_full: true, ..s },
        Word::Mcp => Switches { mcp: true, ..s },
        Word::Help => Switches { help: true, ..s },
        Word::Version => Switches { version: true, ..s },
        Word::Schema => Switches { schema: true, ..s },
        Word::ConfigSchema => Switches { config_schema: true, ..s },
        Word::TokenCount => Switches { token_count: true, ..s },
        _ => s,
    }
}

/// The value behind the equals sign of a config flag.
pub open spec fn config_value(t: Seq<char>, config: Option<Seq<char>>) -> Seq<char> {
    t.skip(("--"@ + config->0 + "="@).len() as int)
}

/// The message that a flag standing alone fails with, where it fails.
#[verifier::opaque]
pub open spec fn single_failure(t: Seq<char>, config: Option<Seq<char>>) -> Option<Seq<char>> {
    if classify(t, config) == Word::ConfigValue && config_value(t, config).len() == 0 {
        Some(missing_value("--"@ + config->0))
    } else {
        None
    }
}

/// `flags` after a flag that stands alone.
#[verifier::opaque]
pub open spec fn with_single(flags: Flags, t: Seq<char>, config: Option<Seq<char>>) -> Flags {
    let word = classify(t, config);
    if is_switch(word) {
        Flags { switches: switched(flags.switches, word), ..flags }
    } else if word == Word::Json {
        Flags { format: Format::Json, format_explicit: true, ..flags }
    } else if word == Word::ConfigValue {
        Flags { config_path: Some(config_value(t, config)), config_disabled: false, ..flags }
    } else if word == Word::NoConfig {
        Flags { config_path: None, config_disabled: true, ..flags }
    } else {
        Flags { rest: flags.rest.push(t), ..flags }
    }
}

/// The message for a format that there is not.
pub open spec fn unknown_format(value: Seq<char>) -> Seq<char> {
    "Invalid format: \""@ + value + "\". Expected one of: toon, json, yaml, md, jsonl"@
}

/// The message that a flag with a value fails with, where it fails.
#[verifier::opaque]
pub open spec fn value_failure(t: Seq<char>, value: Seq<char>, config: Option<Seq<char>>) -> Option<
    Seq<char>,
> {
    let word = classify(t, config);
    if word == Word::Format && format_named(value) is None {
        Some(unknown_format(value))
    } else if (word == Word::TokenLimit || word == Word::TokenOffset) && parsed_up_to(
        value,
        usize::MAX as nat,
    ) is None {
        Some(not_a_number(t, value))
    } else {
        None
    }
}

/// `flags` after a flag and the word that is its value.
#[verifier::opaque]
pub open spec fn with_value(
    flags: Flags,
    t: Seq<char>,
    value: Seq<char>,
    config: Option<Seq<char>>,
) -> Flags {
    match classify(t, config) {
        Word::Format => Flags { format: format_named(value)->0, format_explicit: true, ..flags },
        Word::Config => Flags { config_path: Some(value), config_disabled: false, ..flags },
        Word::FilterOutput => Flags { filter_output: Some(value), ..flags },
        Word::TokenLimit => Flags {
            token_limit: Some(parsed_up_to(value, usize::MAX as nat)->0 as usize),
            ..flags
        },
        _ => Flags {
            token_offset: Some(parsed_up_to(value, usize::MAX as nat)->0 as usize),
            ..flags
        },
    }
}

/// The flags that the words `argv` add to `flags`, or the message of the first
/// flag that fails.
pub open spec fn scanned(argv: Seq<Seq<char>>, config: Option<Seq<char>>, flags: Flags) -> Result<
    Flags,
    Seq<char>,
>
    decreases argv.len(),
{
    if argv.len() == 0 {
        Ok(flags)
    } else if takes_value(classify(argv[0], config)) {
        if argv.len() == 1 {
            Err(missing_value(argv[0]))
        } else {
            match value_failure(argv[0], argv[1], config) {
                None => scanned(
                    argv.skip(2),
                    config,
                    with_value(flags, argv[0], argv[1], config),
                ),
                Some(message) => Err(message),
            }
        }
    } else {
        match single_failure(argv[0], config) {
            None => scanned(argv.skip(1), config, with_single(flags, argv[0], config)),
            Some(message) => Err(message),
        }
    }
}

/// What the outcome of an extraction means.
pub open spec fn outcome(r: Result<BuiltinFlags, String>) -> Result<Flags, Seq<char>> {
    match r {
        Ok(flags) => Ok(flags@),
        Err(message) => Err(message@),
    }
}

/// Only a config flag with an equals sign behind it carries its own value.
proof fn lemma_config_value(t: Seq<char>, config: Option<Seq<char>>)
    requires
        classify(t, config) == Word::ConfigValue,
    ensures
        config is Some,
        ("--"@ + config->0 + "="@).is_prefix_of(t),
{
    reveal(classify);
}

/// Tells which form of the config flag a word is, if any.
fn config_word(t: &str, config_flag: Option<&str>) -> (r: Option<Word>)
    ensures
        r == config_form(t@, opt_str(config_flag)),
{
    let flag = match config_flag {
        Some(flag) => flag,
        None => {
            return None;
        },
    };
    let long = cat("--", flag);
    let with_equals = cat3("--", flag, "=");
    let negated = cat("--no-", flag);
    if same(t, long.as_str()) {
        Some(Word::Config)
    } else if starts_with(t, with_equals.as_str()) {
        Some(Word::ConfigValue)
    } else if same(t, negated.as_str()) {
        Some(Word::NoConfig)
    } else {
        None
    }
}

/// Tells what a word on the command line is.
fn classify_word(t: &str, config_flag: Option<&str>) -> (r: Word)
    ensures
        r == classify(t@, opt_str(config_flag)),
{
    reveal(classify);
    if same(t, "--full-output") {
        Word::FullOutput
    } else if same(t, "--llms") {
        Word::Llms
    } else if same(t, "--llms-full") {
        Word::LlmsFull
    } else if same(t, "--mcp") {
        Word::Mcp
    } else if same(t, "--help") || same(t, "-h") {
        Word::Help
    } else if same(t, "--version") {
        Word::Version
    } else if same(t, "--schema") {
        Word::Schema
    } else if same(t, "--config-schema") {
        Word::ConfigSchema
    } else if same(t, "--json") {
        Word::Json
    } else if same(t, "--format") {
        Word::Format
    } else if let Some(word) = config_word(t, config_flag) {
        word
    } else if same(t, "--filter-output") {
        Word::FilterOutput
    } else if same(t, "--token-limit") {
        Word::TokenLimit
    } else if same(t, "--token-offset") {
        Word::TokenOffset
    } else if same(t, "--token-count") {
        Word::TokenCount
    } else {
        Word::Other
    }
}

/// The message for a flag whose value is missing.
fn missing_value_message(flag: &str) -> (r: String)
    ensures
        r@ == missing_value(flag@),
{
    cat("Missing value for flag: ", flag)
}

/// The message for a flag whose value is no number.
fn not_a_number_message(flag: &str, value: &str) -> (r: String)
    ensures
        r@ == not_a_number(flag@, value@),
{
    let mut out = cat3("Invalid value for ", flag, ": \"");
    out.append(value);
    out.append("\". Expected a number");
    out
}

/// The message for a format that there is not.
fn unknown_format_message(value: &str) -> (r: String)
    ensures
        r@ == unknown_format(value@),
{
    cat3("Invalid format: \"", value, "\". Expected one of: toon, json, yaml, md, jsonl")
}

/// Takes a switch into account.
fn take_switch(flags: &mut BuiltinFlags, word: Word) -> (done: bool)
    ensures
        done == is_switch(word),
        final(flags)@ == (Flags { switches: switched(old(flags)@.switches, word), ..old(flags)@ }),
{
    match word {
        Word::FullOutput => {
            flags.verbose = true;
            true
        },
        Word::Llms => {
            flags.llms = true;
            true
        },
        Word::LlmsFull => {
            flags.llms_full = true;
            true
        },
        Word::Mcp => {
            flags.mcp = true;
            true
        },
        Word::Help => {
            flags.help = true;
            true
        },
        Word::Version => {
            flags.version = true;
            true
        },
        Word::Schema => {
            flags.schema = true;
            true
        },
        Word::ConfigSchema => {
            flags.config_schema = true;
            true
        },
        Word::TokenCount => {
            flags.token_count = true;
            true
        },
        _ => false,
    }
}

/// Takes a flag that stands alone and is no switch into account.
fn take_config_value(flags: &mut BuiltinFlags, t: &String, config_flag: Option<&str>) -> (r: Result<
    (),
    String,
>)
    requires
        classify(t@, opt_str(config_flag)) == Word::ConfigValue,
    ensures
        match single_failure(t@, opt_str(config_flag)) {
            None => r is Ok && final(flags)@ == with_single(old(flags)@, t@, opt_str(config_flag)),
            Some(message) => r matches Err(m) && m@ == message,
        },
{
    reveal(with_single);
    reveal(single_failure);
    proof {
        lemma_config_value(t@, opt_str(config_flag));
    }
    let flag = config_flag.unwrap();
    let with_equals = cat3("--", flag, "=");
    let value = strip_prefix(t.as_str(), with_equals.as_str()).unwrap();
    if value.as_str().is_empty() {
        let long = cat("--", flag);
        return Err(missing_value_message(long.as_str()));
    }
    flags.config_path = Some(value);
    flags.config_disabled = false;
    Ok(())
}

/// Takes a word that is no flag, or a flag without a value of its own, into
/// account.
fn take_plain(flags: &mut BuiltinFlags, t: &String, word: Word, config_flag: Option<&str>)
    requires
        word == classify(t@, opt_str(config_flag)),
        word != Word::ConfigValue,
    ensures
        final(flags)@ == with_single(old(flags)@, t@, opt_str(config_flag)),
        single_failure(t@, opt_str(config_flag)) is None,
{
    reveal(with_single);
    reveal(single_failure);
    let ghost start = flags@;
    if take_switch(flags, word) {
        return ;
    }
    match word {
        Word::Json => {
            flags.format = Format::Json;
            flags.format_explicit = true;
        },
        Word::NoConfig => {
            flags.config_path = None;
            flags.config_disabled = true;
        },
        _ => {
            flags.rest.push(t.clone());
            assert(flags@.rest =~= start.rest.push(t@));
        },
    }
}

/// Takes a flag that stands alone into account.
fn take_single(flags: &mut BuiltinFlags, t: &String, word: Word, config_flag: Option<&str>) -> (r: Result<
    (),
    String,
>)
    requires
        word == classify(t@, opt_str(config_flag)),
    ensures
        match single_failure(t@, opt_str(config_flag)) {
            None => r is Ok && final(flags)@ == with_single(old(flags)@, t@, opt_str(config_flag)),
            Some(message) => r matches Err(m) && m@ == message,
        },
{
    match word {
        Word::ConfigValue => take_config_value(flags, t, config_flag),
        _ => {
            take_plain(flags, t, word, config_flag);
            Ok(())
        },
    }
}

/// Takes the format flag into account.
fn take_format(flags: &mut BuiltinFlags, t: &String, value: &String, config_flag: Option<&str>) -> (r: Result<
    (),
    String,
>)
    requires
        classify(t@, opt_str(config_flag)) == Word::Format,
    ensures
        match value_failure(t@, value@, opt_str(config_flag)) {
            None => r is Ok && final(flags)@ == with_value(
                old(flags)@,
                t@,
                value@,
                opt_str(config_flag),
            ),
            Some(message) => r matches Err(m) && m@ == message,
        },
{
    reveal(with_value);
    reveal(value_failure);
    match Format::from_str_opt(value.as_str()) {
        Some(format) => {
            flags.format = format;
            flags.format_explicit = true;
            Ok(())
        },
        None => Err(unknown_format_message(value.as_str())),
    }
}

/// Takes a flag with a number into account.
fn take_number(
    flags: &mut BuiltinFlags,
    t: &String,
    value: &String,
    word: Word,
    config_flag: Option<&str>,
) -> (r: Result<(), String>)
    requires
        word == classify(t@, opt_str(config_flag)),
        word == Word::TokenLimit || word == Word::TokenOffset,
    ensures
        match value_failure(t@, value@, opt_str(config_flag)) {
            None => r is Ok && final(flags)@ == with_value(
                old(flags)@,
                t@,
                value@,
                opt_str(config_flag),
            ),
            Some(message) => r matches Err(m) && m@ == message,
        },
{
    reveal(with_value);
    reveal(value_failure);
    match parse_usize(value.as_str()) {
        Some(n) => {
            if let Word::TokenLimit = word {
                flags.token_limit = Some(n);
            } else {
                flags.token_offset = Some(n);
            }
            Ok(())
        },
        None => Err(not_a_number_message(t.as_str(), value.as_str())),
    }
}

/// Takes a flag with a text into account.
fn take_text(
    flags: &mut BuiltinFlags,
    t: &String,
    value: &String,
    word: Word,
    config_flag: Option<&str>,
)
    requires
        word == classify(t@, opt_str(config_flag)),
        word == Word::Config || word == Word::FilterOutput,
    ensures
        value_failure(t@, value@, opt_str(config_flag)) is None,
        final(flags)@ == with_value(old(flags)@, t@, value@, opt_str(config_flag)),
{
    reveal(with_value);
    reveal(value_failure);
    if let Word::Config = word {
        flags.config_path = Some(value.clone());
        flags.config_disabled = false;
    } else {
        flags.filter_output = Some(value.clone());
    }
}

/// Takes a flag and its value into account.
fn take_value(
    flags: &mut BuiltinFlags,
    t: &String,
    value: &String,
    word: Word,
    config_flag: Option<&str>,
) -> (r: Result<(), String>)
    requires
        word == classify(t@, opt_str(config_flag)),
        takes_value(word),
    ensures
        match value_failure(t@, value@, opt_str(config_flag)) {
            None => r is Ok && final(flags)@ == with_value(
                old(flags)@,
                t@,
                value@,
                opt_str(config_flag),
            ),
            Some(message) => r matches Err(m) && m@ == message,
        },
{
    match word {
        Word::Format => take_format(flags, t, value, config_flag),
        Word::TokenLimit | Word::TokenOffset => take_number(flags, t, value, word, config_flag),
        _ => {
            take_text(flags, t, value, word, config_flag);
            Ok(())
        },
    }
}

/// Takes the word at `i`, and its value where it has one, into account. Gives
/// the position of the next word.
fn take_word(flags: &mut BuiltinFlags, argv: &Vec<String>, i: usize, config_flag: Option<&str>) -> (r: Result<
    usize,
    String,
>)
    requires
        i < argv.len(),
    ensures
        match r {
            Ok(next) => i < next <= argv@.len() && scanned(
                texts(argv@).skip(next as int),
                opt_str(config_flag),
                final(flags)@,
            ) == scanned(texts(argv@).skip(i as int), opt_str(config_flag), old(flags)@),
            Err(message) => scanned(texts(argv@).skip(i as int), opt_str(config_flag), old(flags)@)
                == Err::<Flags, Seq<char>>(message@),
        },
{
    let ghost all = texts(argv@);
    let ghost rest = all.skip(i as int);
    assert(rest[0] == argv@[i as int]@);
    let word = classify_word(argv[i].as_str(), config_flag);
    let valued = match word {
        Word::Format | Word::Config | Word::FilterOutput | Word::TokenLimit
        | Word::TokenOffset => true,
        _ => false,
    };
    if valued {
        if i + 1 >= argv.len() {
            return Err(missing_value_message(argv[i].as_str()));
        }
        assert(rest[1] == argv@[i + 1]@);
        assert(rest.skip(2) =~= all.skip(i + 2));
        match take_value(flags, &argv[i], &argv[i + 1], word, config_flag) {
            Ok(_) => Ok(i + 2),
            Err(message) => Err(message),
        }
    } else {
        assert(rest.skip(1) =~= all.skip(i + 1));
        match take_single(flags, &argv[i], word, config_flag) {
            Ok(_) => Ok(i + 1),
            Err(message) => Err(message),
        }
    }
}

/// Extracts built-in flags from argv, returning the parsed flags and the
/// remaining tokens that should be passed to the command.
pub fn extract_builtin_flags(argv: &Vec<String>, config_flag: Option<&str>) -> (r: Result<
    BuiltinFlags,
    String,
>)
    ensures
        outcome(r) == scanned(texts(argv@), opt_str(config_flag), no_flags()),
{
    let mut flags = BuiltinFlags {
        verbose: false,
        format: Format::Toon,
        format_explicit: false,
        filter_output: None,
        token_limit: None,
        token_offset: None,
        token_count: false,
        llms: false,
        llms_full: false,
        mcp: false,
        help: false,
        version: false,
        schema: false,
        config_schema: false,
        config_path: None,
        config_disabled: false,
        rest: Vec::new(),
    };
    let ghost all = texts(argv@);
    assert(flags@.rest =~= Seq::<Seq<char>>::empty());
    assert(all.skip(0) =~= all);
    let mut i: usize = 0;
    while i < argv.len()
        invariant
            i <= argv@.len(),
            all == texts(argv@),
            scanned(all.skip(i as int), opt_str(config_flag), flags@) == scanned(
                all,
                opt_str(config_flag),
                no_flags(),
            ),
        decreases argv.len() - i,
    {
        match take_word(&mut flags, argv, i, config_flag) {
            Ok(next) => {
                i = next;
            },
            Err(message) => {
                return Err(message);
            },
        }
    }
    Ok(flags)
}

// ---------------------------------------------------------------------------
// Laws
// ---------------------------------------------------------------------------

/// Whether `a` arises from `b` by leaving words out.
pub open spec fn subsequence(a: Seq<Seq<char>>, b: Seq<Seq<char>>) -> bool
    decreases b.len(),
{
    if a.len() == 0 {
        true
    } else if b.len() == 0 {
        false
    } else {
        (a[0] == b[0] && subsequence(a.skip(1), b.skip(1))) || subsequence(a, b.skip(1))
    }
}

/// A single word changes what is handed on only by adding itself, and adds
/// itself only where it is no flag.
proof fn lemma_single_rest(flags: Flags, t: Seq<char>, config: Option<Seq<char>>)
    requires
        !takes_value(classify(t, config)),
    ensures
        with_single(flags, t, config).rest == flags.rest || (with_single(flags, t, config).rest
            == flags.rest.push(t) && classify(t, config) == Word::Other),
{
    reveal(with_single);
}

proof fn lemma_scan_adds_others(argv: Seq<Seq<char>>, config: Option<Seq<char>>, flags: Flags)
    ensures
        scanned(argv, config, flags) matches Ok(f) ==> {
            &&& f.rest.len() >= flags.rest.len()
            &&& f.rest.take(flags.rest.len() as int) == flags.rest
            &&& subsequence(f.rest.skip(flags.rest.len() as int), argv)
            &&& forall|i: int|
                flags.rest.len() <= i < f.rest.len() ==> classify(#[trigger] f.rest[i], config)
                    == Word::Other
        },
    decreases argv.len(),
{
    let n = flags.rest.len() as int;
    if argv.len() == 0 {
        assert(flags.rest.take(n) =~= flags.rest);
    } else if takes_value(classify(argv[0], config)) {
        if argv.len() > 1 {
            reveal(with_value);
            let next = with_value(flags, argv[0], argv[1], config);
            assert(next.rest == flags.rest);
            lemma_scan_adds_others(argv.skip(2), config, next);
            assert(argv.skip(1).skip(1) =~= argv.skip(2));
            if let Ok(f) = scanned(argv, config, flags) {
                let added = f.rest.skip(n);
                assert(subsequence(added, argv.skip(1)));
            }
        }
    } else {
        let next = with_single(flags, argv[0], config);
        lemma_single_rest(flags, argv[0], config);
        lemma_scan_adds_others(argv.skip(1), config, next);
        if let Ok(f) = scanned(argv, config, flags) {
            if next.rest != flags.rest {
                assert(f.rest.take(n) =~= f.rest.take(n + 1).take(n));
                assert(flags.rest.push(argv[0]).take(n) =~= flags.rest);
                assert(f.rest.skip(n).skip(1) =~= f.rest.skip(n + 1));
                assert(f.rest[n] == f.rest.take(n + 1)[n]);
                assert(f.rest.skip(n)[0] == argv[0]);
            }
        }
    }
}

/// The words that are handed on are words of the command line, in their order.
pub proof fn law_rest_keeps_order(argv: Seq<Seq<char>>, config: Option<Seq<char>>)
    ensures
        scanned(argv, config, no_flags()) matches Ok(f) ==> subsequence(f.rest, argv),
{
    lemma_scan_adds_others(argv, config, no_flags());
    if let Ok(f) = scanned(argv, config, no_flags()) {
        assert(f.rest.skip(0) =~= f.rest);
    }
}

/// No built-in flag is handed on.
pub proof fn law_rest_has_no_flags(argv: Seq<Seq<char>>, config: Option<Seq<char>>, i: int)
    requires
        scanned(argv, config, no_flags()) is Ok,
        0 <= i < scanned(argv, config, no_flags())->Ok_0.rest.len(),
    ensures
        classify(scanned(argv, config, no_flags())->Ok_0.rest[i], config) == Word::Other,
{
    lemma_scan_adds_others(argv, config, no_flags());
}

/// Having a config flag changes nothing but what its own three forms are: every other
/// word is what it is without one.
pub proof fn law_config_flag_hides_no_other_flag(t: Seq<char>, config: Option<Seq<char>>)
    requires
        config_form(t, config) is None,
    ensures
        classify(t, config) == classify(t, None),
{
    reveal(classify);
}

proof fn lemma_scan_of_others(argv: Seq<Seq<char>>, config: Option<Seq<char>>, flags: Flags)
    requires
        forall|i: int| 0 <= i < argv.len() ==> classify(#[trigger] argv[i], config) == Word::Other,
    ensures
        scanned(argv, config, flags) == Ok::<Flags, Seq<char>>(
            Flags { rest: flags.rest + argv, ..flags },
        ),
    decreases argv.len(),
{
    reveal(with_single);
    reveal(single_failure);
    if argv.len() == 0 {
        assert(flags.rest + argv =~= flags.rest);
    } else {
        let next = Flags { rest: flags.rest.push(argv[0]), ..flags };
        assert(classify(argv[0], config) == Word::Other);
        assert forall|i: int| 0 <= i < argv.skip(1).len() implies classify(
            #[trigger] argv.skip(1)[i],
            config,
        ) == Word::Other by {
            assert(argv.skip(1)[i] == argv[i + 1]);
        }
        lemma_scan_of_others(argv.skip(1), config, next);
        assert(next.rest + argv.skip(1) =~= flags.rest + argv);
    }
}

/// A command line without built-in flags is handed on whole.
pub proof fn law_plain_words_pass(argv: Seq<Seq<char>>, config: Option<Seq<char>>)
    requires
        forall|i: int| 0 <= i < argv.len() ==> classify(#[trigger] argv[i], config) == Word::Other,
    ensures
        scanned(argv, config, no_flags()) == Ok::<Flags, Seq<char>>(
            Flags { rest: argv, ..no_flags() },
        ),
{
    lemma_scan_of_others(argv, config, no_flags());
    assert(no_flags().rest + argv =~= argv);
}

/// Extracting flags from what was handed on finds nothing more.
pub proof fn law_extraction_is_idempotent(argv: Seq<Seq<char>>, config: Option<Seq<char>>)
    ensures
        scanned(argv, config, no_flags()) matches Ok(f) ==> scanned(f.rest, config, no_flags())
            == Ok::<Flags, Seq<char>>(Flags { rest: f.rest, ..no_flags() }),
{
    if let Ok(f) = scanned(argv, config, no_flags()) {
        lemma_scan_adds_others(argv, config, no_flags());
        law_plain_words_pass(f.rest, config);
    }
}

/// The built-in flags differ.
proof fn lemma_flags_differ()
    ensures
        "--full-output"@ != "--llms"@,
        "--full-output"@ != "--llms-full"@,
        "--full-output"@ != "--mcp"@,
        "--full-output"@ != "--help"@,
        "--full-output"@ != "-h"@,
        "--full-output"@ != "--version"@,
        "--full-output"@ != "--schema"@,
        "--full-output"@ != "--config-schema"@,
        "--full-output"@ != "--json"@,
        "--full-output"@ != "--format"@,
        "--full-output"@ != "--filter-output"@,
        "--full-output"@ != "--token-limit"@,
        "--full-output"@ != "--token-offset"@,
        "--full-output"@ != "--token-count"@,
        "--llms"@ != "--llms-full"@,
        "--llms"@ != "--mcp"@,
        "--llms"@ != "--help"@,
        "--llms"@ != "-h"@,
        "--llms"@ != "--version"@,
        "--llms"@ != "--schema"@,
        "--llms"@ != "--config-schema"@,
        "--llms"@ != "--json"@,
        "--llms"@ != "--format"@,
        "--llms"@ != "--filter-output"@,
        "--llms"@ != "--token-limit"@,
        "--llms"@ != "--token-offset"@,
        "--llms"@ != "--token-count"@,
        "--llms-full"@ != "--mcp"@,
        "--llms-full"@ != "--help"@,
        "--llms-full"@ != "-h"@,
        "--llms-full"@ != "--version"@,
        "--llms-full"@ != "--schema"@,
        "--llms-full"@ != "--config-schema"@,
        "--llms-full"@ != "--json"@,
        "--llms-full"@ != "--format"@,
        "--llms-full"@ != "--filter-output"@,
        "--llms-full"@ != "--token-limit"@,
        "--llms-full"@ != "--token-offset"@,
        "--llms-full"@ != "--token-count"@,
        "--mcp"@ != "--help"@,
        "--mcp"@ != "-h"@,
        "--mcp"@ != "--version"@,
        "--mcp"@ != "--schema"@,
        "--mcp"@ != "--config-schema"@,
        "--mcp"@ != "--json"@,
        "--mcp"@ != "--format"@,
        "--mcp"@ != "--filter-output"@,
        "--mcp"@ != "--token-limit"@,
        "--mcp"@ != "--token-offset"@,
        "--mcp"@ != "--token-count"@,
        "--help"@ != "-h"@,
        "--help"@ != "--version"@,
        "--help"@ != "--schema"@,
        "--help"@ != "--config-schema"@,
        "--help"@ != "--json"@,
        "--help"@ != "--format"@,
        "--help"@ != "--filter-output"@,
        "--help"@ != "--token-limit"@,
        "--help"@ != "--token-offset"@,
        "--help"@ != "--token-count"@,
        "-h"@ != "--version"@,
        "-h"@ != "--schema"@,
        "-h"@ != "--config-schema"@,
        "-h"@ != "--json"@,
        "-h"@ != "--format"@,
        "-h"@ != "--filter-output"@,
        "-h"@ != "--token-limit"@,
        "-h"@ != "--token-offset"@,
        "-h"@ != "--token-count"@,
        "--version"@ != "--schema"@,
        "--version"@ != "--config-schema"@,
        "--version"@ != "--json"@,
        "--version"@ != "--format"@,
        "--version"@ != "--filter-output"@,
        "--version"@ != "--token-limit"@,
        "--version"@ != "--token-offset"@,
        "--version"@ != "--token-count"@,
        "--schema"@ != "--config-schema"@,
        "--schema"@ != "--json"@,
        "--schema"@ != "--format"@,
        "--schema"@ != "--filter-output"@,
        "--schema"@ != "--token-limit"@,
        "--schema"@ != "--token-offset"@,
        "--schema"@ != "--token-count"@,
        "--config-schema"@ != "--json"@,
        "--config-schema"@ != "--format"@,
        "--config-schema"@ != "--filter-output"@,
        "--config-schema"@ != "--token-limit"@,
        "--config-schema"@ != "--token-offset"@,
        "--config-schema"@ != "--token-count"@,
        "--json"@ != "--format"@,
        "--json"@ != "--filter-output"@,
        "--json"@ != "--token-limit"@,
        "--json"@ != "--token-offset"@,
        "--json"@ != "--token-count"@,
        "--format"@ != "--filter-output"@,
        "--format"@ != "--token-limit"@,
        "--format"@ != "--token-offset"@,
        "--format"@ != "--token-count"@,
        "--filter-output"@ != "--token-limit"@,
        "--filter-output"@ != "--token-offset"@,
        "--filter-output"@ != "--token-count"@,
        "--token-limit"@ != "--token-offset"@,
        "--token-limit"@ != "--token-count"@,
        "--token-offset"@ != "--token-count"@,
{
    reveal_strlit("--full-output");
    reveal_strlit("--llms");
    reveal_strlit("--llms-full");
    reveal_strlit("--mcp");
    reveal_strlit("--help");
    reveal_strlit("-h");
    reveal_strlit("--version");
    reveal_strlit("--schema");
    reveal_strlit("--config-schema");
    reveal_strlit("--json");
    reveal_strlit("--format");
    reveal_strlit("--filter-output");
    reveal_strlit("--token-limit");
    reveal_strlit("--token-offset");
    reveal_strlit("--token-count");
    assert("--full-output"@.len() == 13);
    assert("--llms"@.len() == 6);
    assert("--llms-full"@.len() == 11);
    assert("--mcp"@.len() == 5);
    assert("--help"@.len() == 6);
    assert("-h"@.len() == 2);
    assert("--version"@.len() == 9);
    assert("--schema"@.len() == 8);
    assert("--config-schema"@.len() == 15);
    assert("--json"@.len() == 6);
    assert("--format"@.len() == 8);
    assert("--filter-output"@.len() == 15);
    assert("--token-limit"@.len() == 13);
    assert("--token-offset"@.len() == 14);
    assert("--token-count"@.len() == 13);
    assert("--config-schema"@[2] == 'c');
    assert("--filter-output"@[2] == 'f');
    assert("--format"@[2] == 'f');
    assert("--full-output"@[2] == 'f');
    assert("--help"@[2] == 'h');
    assert("--json"@[2] == 'j');
    assert("--llms"@[2] == 'l');
    assert("--schema"@[2] == 's');
    assert("--token-count"@[2] == 't');
    assert("--token-count"@[8] == 'c');
    assert("--token-limit"@[2] == 't');
    assert("--token-limit"@[8] == 'l');
}

proof fn lemma_first(word: Seq<char>, rest: Seq<Seq<char>>)
    ensures
        (seq![word] + rest)[0] == word,
        (seq![word] + rest).skip(1) == rest,
        (seq![word] + rest).len() == rest.len() + 1,
{
    assert((seq![word] + rest).skip(1) =~= rest);
}

/// A switch sets what it is named after and nothing else, wherever it stands, and the
/// words behind it are read as they would be without it.
pub proof fn law_switches_are_set(
    rest: Seq<Seq<char>>,
    config: Option<Seq<char>>,
    flags: Flags,
)
    ensures
        scanned(seq!["--full-output"@] + rest, config, flags) == scanned(
            rest,
            config,
            Flags { switches: Switches { verbose: true, ..flags.switches }, ..flags },
        ),
        scanned(seq!["--llms"@] + rest, config, flags) == scanned(
            rest,
            config,
            Flags { switches: Switches { llms: true, ..flags.switches }, ..flags },
        ),
        scanned(seq!["--llms-full"@] + rest, config, flags) == scanned(
            rest,
            config,
            Flags { switches: Switches { llms_full: true, ..flags.switches }, ..flags },
        ),
        scanned(seq!["--mcp"@] + rest, config, flags) == scanned(
            rest,
            config,
            Flags { switches: Switches { mcp: true, ..flags.switches }, ..flags },
        ),
        scanned(seq!["--help"@] + rest, config, flags) == scanned(
            rest,
            config,
            Flags { switches: Switches { help: true, ..flags.switches }, ..flags },
        ),
        scanned(seq!["-h"@] + rest, config, flags) == scanned(
            rest,
            config,
            Flags { switches: Switches { help: true, ..flags.switches }, ..flags },
        ),
        scanned(seq!["--version"@] + rest, config, flags) == scanned(
            rest,
            config,
            Flags { switches: Switches { version: true, ..flags.switches }, ..flags },
        ),
        scanned(seq!["--schema"@] + rest, config, flags) == scanned(
            rest,
            config,
            Flags { switches: Switches { schema: true, ..flags.switches }, ..flags },
        ),
        scanned(seq!["--config-schema"@] + rest, config, flags) == scanned(
            rest,
            config,
            Flags { switches: Switches { config_schema: true, ..flags.switches }, ..flags },
        ),
        scanned(seq!["--json"@] + rest, config, flags) == scanned(
            rest,
            config,
            Flags { format: Format::Json, format_explicit: true, ..flags },
        ),
        config_form("--token-count"@, config) is None ==> scanned(
            seq!["--token-count"@] + rest,
            config,
            flags,
        ) == scanned(
            rest,
            config,
            Flags { switches: Switches { token_count: true, ..flags.switches }, ..flags },
        ),
{
    reveal(classify);
    reveal(with_single);
    reveal(single_failure);
    reveal(with_value);
    reveal(value_failure);
    lemma_flags_differ();
    lemma_first("--full-output"@, rest);
    lemma_first("--llms"@, rest);
    lemma_first("--llms-full"@, rest);
    lemma_first("--mcp"@, rest);
    lemma_first("--help"@, rest);
    lemma_first("-h"@, rest);
    lemma_first("--version"@, rest);
    lemma_first("--schema"@, rest);
    lemma_first("--config-schema"@, rest);
    lemma_first("--json"@, rest);
    lemma_first("--token-count"@, rest);
}

proof fn lemma_two(word: Seq<char>, value: Seq<char>, rest: Seq<Seq<char>>)
    ensures
        (seq![word, value] + rest)[0] == word,
        (seq![word, value] + rest)[1] == value,
        (seq![word, value] + rest).skip(2) == rest,
        (seq![word, value] + rest).len() == rest.len() + 2,
{
    assert((seq![word, value] + rest).skip(2) =~= rest);
}

/// A flag that takes a value takes the word behind it: a format by its name, a number,
/// or any text. A value that does not fit is refused, and so is a flag without one.
pub proof fn law_values_are_taken(
    value: Seq<char>,
    rest: Seq<Seq<char>>,
    config: Option<Seq<char>>,
    flags: Flags,
)
    ensures
        format_named(value) matches Some(format) ==> scanned(
            seq!["--format"@, value] + rest,
            config,
            flags,
        ) == scanned(rest, config, Flags { format, format_explicit: true, ..flags }),
        format_named(value) is None ==> scanned(seq!["--format"@, value] + rest, config, flags)
            is Err,
        scanned(seq!["--format"@], config, flags) == Err::<Flags, Seq<char>>(
            "Missing value for flag: --format"@,
        ),
        config_form("--filter-output"@, config) is None ==> scanned(
            seq!["--filter-output"@, value] + rest,
            config,
            flags,
        ) == scanned(rest, config, Flags { filter_output: Some(value), ..flags }),
        config_form("--token-limit"@, config) is None ==> (match parsed_up_to(
            value,
            usize::MAX as nat,
        ) {
            Some(n) => scanned(seq!["--token-limit"@, value] + rest, config, flags) == scanned(
                rest,
                config,
                Flags { token_limit: Some(n as usize), ..flags },
            ),
            None => scanned(seq!["--token-limit"@, value] + rest, config, flags) is Err,
        }),
        config_form("--token-offset"@, config) is None ==> (match parsed_up_to(
            value,
            usize::MAX as nat,
        ) {
            Some(n) => scanned(seq!["--token-offset"@, value] + rest, config, flags) == scanned(
                rest,
                config,
                Flags { token_offset: Some(n as usize), ..flags },
            ),
            None => scanned(seq!["--token-offset"@, value] + rest, config, flags) is Err,
        }),
{
    reveal(classify);
    reveal(with_single);
    reveal(single_failure);
    reveal(with_value);
    reveal(value_failure);
    lemma_flags_differ();
    lemma_two("--format"@, value, rest);
    lemma_two("--filter-output"@, value, rest);
    lemma_two("--token-limit"@, value, rest);
    lemma_two("--token-offset"@, value, rest);
    reveal_strlit("Missing value for flag: ");
    reveal_strlit("Missing value for flag: --format");
    reveal_strlit("--format");
    assert("Missing value for flag: --format"@ =~= "Missing value for flag: "@ + "--format"@);
}

/// The config flag takes its file from the word behind it or from behind an equals sign,
/// and its negated form switches config files off. The last of these counts.
pub proof fn law_config_flag_names_the_file(
    flag: Seq<char>,
    value: Seq<char>,
    rest: Seq<Seq<char>>,
    flags: Flags,
)
    requires
        value.len() > 0,
        classify("--"@ + flag, None) == Word::Other,
        classify("--"@ + flag + "="@ + value, None) == Word::Other,
        classify("--no-"@ + flag, None) == Word::Other,
        "--no-"@ + flag != "--"@ + flag,
        !("--"@ + flag + "="@).is_prefix_of("--no-"@ + flag),
    ensures
        scanned(seq!["--"@ + flag, value] + rest, Some(flag), flags) == scanned(
            rest,
            Some(flag),
            Flags { config_path: Some(value), config_disabled: false, ..flags },
        ),
        scanned(seq!["--"@ + flag + "="@ + value] + rest, Some(flag), flags) == scanned(
            rest,
            Some(flag),
            Flags { config_path: Some(value), config_disabled: false, ..flags },
        ),
        scanned(seq!["--no-"@ + flag] + rest, Some(flag), flags) == scanned(
            rest,
            Some(flag),
            Flags { config_path: None, config_disabled: true, ..flags },
        ),
{
    reveal(classify);
    reveal(with_single);
    reveal(single_failure);
    reveal(with_value);
    reveal(value_failure);
    let lead = "--"@ + flag + "="@;
    let whole = lead + value;
    lemma_two("--"@ + flag, value, rest);
    lemma_first(whole, rest);
    lemma_first("--no-"@ + flag, rest);
    assert(whole.subrange(0, lead.len() as int) =~= lead);
    assert(whole.skip(lead.len() as int) =~= value);
    reveal_strlit("=");
    assert(whole.len() > ("--"@ + flag).len());
}

/// A word that is no built-in flag is left over, in its place.
pub proof fn law_other_words_are_left(
    word: Seq<char>,
    rest: Seq<Seq<char>>,
    config: Option<Seq<char>>,
    flags: Flags,
)
    requires
        word != "--full-output"@,
        word != "--llms"@,
        word != "--llms-full"@,
        word != "--mcp"@,
        word != "--help"@,
        word != "-h"@,
        word != "--version"@,
        word != "--schema"@,
        word != "--config-schema"@,
        word != "--json"@,
        word != "--format"@,
        word != "--filter-output"@,
        word != "--token-limit"@,
        word != "--token-offset"@,
        word != "--token-count"@,
        config matches Some(flag) ==> word != "--"@ + flag && word != "--no-"@ + flag && !("--"@
            + flag + "="@).is_prefix_of(word),
    ensures
        scanned(seq![word] + rest, config, flags) == scanned(
            rest,
            config,
            Flags { rest: flags.rest.push(word), ..flags },
        ),
{
    reveal(classify);
    reveal(with_single);
    reveal(single_failure);
    reveal(with_value);
    reveal(value_failure);
    lemma_first(word, rest);
}

/// A command line without words sets no flag: output is TOON and all is off.
pub proof fn law_no_word_sets_no_flag(config: Option<Seq<char>>)
    ensures
        scanned(Seq::empty(), config, no_flags()) matches Ok(flags) && {
            &&& !flags.switches.verbose && !flags.switches.token_count && !flags.switches.llms
            &&& !flags.switches.llms_full && !flags.switches.mcp && !flags.switches.help
            &&& !flags.switches.version && !flags.switches.schema && !flags.switches.config_schema
            &&& flags.format == Format::Toon && !flags.format_explicit
            &&& flags.filter_output is None && flags.token_limit is None
            &&& flags.token_offset is None && flags.config_path is None
            &&& !flags.config_disabled && flags.rest.len() == 0
        },
{
}

} // verus!
