//! What the command line shows of the result of a command.

use vstd::prelude::*;
use crate::cli::cta::{
    block_json, block_lines, cta_value, format_cta_block, format_human_cta, format_human_error,
    human_error, merge_cta, merged_block, opt_block, shown_block, FormattedCta, FormattedCtaBlock,
};
use crate::cli::flags::BuiltinFlags;
use crate::cli::pages::{push_piece, shown, Piece, Shown};
use crate::cli::tokens::{truncate_tokens, truncated, window_fits};
use crate::filter;
use crate::filter::{applied, expression_paths};
use crate::output::{CtaBlock, Format};
use crate::table::stored;
use crate::text::{cat, decimal, decimal_text, opt_text, same};
use crate::value::{
    collected, entries, field, lemma_array_view, lemma_collected_found, lemma_collected_push,
    lemma_nothing_collected, lemma_object_view, natural, new_object, object, put, string_value,
    values, with_some, Json, Number, Value,
};

verus! {

/// What is shown of suggestions: command and description of each.
pub type Block = (Seq<char>, Seq<(Seq<char>, Option<Seq<char>>)>);

/// A duration as it is shown.
pub open spec fn duration(millis: u64) -> Seq<char> {
    decimal(millis as nat) + "ms"@
}

/// Gives a duration as it is shown.
pub fn duration_text(millis: u64) -> (r: String)
    ensures
        r@ == duration(millis),
{
    cat(decimal_text(millis).as_str(), "ms")
}

/// The suggestions of a block, where it has any.
pub open spec fn suggested_block(name: Seq<char>, cta: Option<CtaBlock>) -> Option<Block> {
    match cta {
        Some(block) => if block.commands@.len() == 0 {
            None
        } else {
            Some(shown_block(name, block))
        },
        None => None,
    }
}

fn make_block(name: &str, cta: &Option<CtaBlock>) -> (r: Option<FormattedCtaBlock>)
    ensures
        opt_block(r) == suggested_block(name@, *cta),
{
    match cta {
        Some(block) => format_cta_block(name, Some(block)),
        None => None,
    }
}

/// The suggestion to sync skill files: made where skills are installed and the
/// stored hash is not that of the commands.
pub open spec fn skills_block(
    name: Seq<char>,
    stored: Option<Seq<char>>,
    installed: bool,
    live: Seq<char>,
) -> Option<Block> {
    if stored is Some && installed && stored != Some(live) {
        Some(
            (
                "Skills are out of date:"@,
                seq![(name + " skills add"@, Some("sync outdated skills"@))],
            ),
        )
    } else {
        None
    }
}

/// Computes the "Skills are out of date" suggestion: when installed skills exist
/// for this CLI and the stored hash differs from that of the live command tree.
pub fn compute_skills_cta(name: &str, stored: Option<&str>, installed: bool, live: &str) -> (r:
    Option<FormattedCtaBlock>)
    ensures
        opt_block(r) == skills_block(
            name@,
            match stored {
                Some(s) => Some(s@),
                None => None,
            },
            installed,
            live@,
        ),
{
    let hash = match stored {
        Some(hash) => hash,
        None => {
            return None;
        },
    };
    if !installed || same(hash, live) {
        return None;
    }
    let entry = FormattedCta {
        command: cat(name, " skills add"),
        description: Some("sync outdated skills".to_string()),
    };
    let ghost e = entry@;
    let mut commands: Vec<FormattedCta> = Vec::new();
    commands.push(entry);
    assert(crate::cli::cta::suggestions(commands@) =~= seq![e]);
    Some(FormattedCtaBlock { description: "Skills are out of date:".to_string(), commands })
}

/// The data that is left of a result: what the filter expression picks, where
/// there is one.
pub open spec fn filtered(data: Json, expression: Option<Seq<char>>) -> Json {
    match expression {
        Some(e) => applied(data, expression_paths(e)),
        None => data,
    }
}

/// Applies the filter expression of the command line to the data of a result,
/// and gives nothing where the end of a slice in the expression is no machine
/// number.
pub fn filter_data(data: Value, builtin: &BuiltinFlags) -> (r: Option<Value>)
    ensures
        match r {
            Some(v) => v@ == filtered(data@, opt_text(builtin.filter_output)),
            None => builtin.filter_output matches Some(e) && !filter::all_fit(
                expression_paths(e@),
            ),
        },
        (builtin.filter_output matches Some(e) ==> filter::all_fit(expression_paths(e@))) ==> r is Some,
{
    match &builtin.filter_output {
        Some(expression) => match filter::parse_bounded(expression.as_str()) {
            Some(paths) => Some(filter::apply(&data, &paths)),
            None => None,
        },
        None => Some(data),
    }
}

/// What every envelope says of the command.
pub open spec fn meta_pairs(path: Seq<char>, millis: u64, cta: Option<Block>) -> Seq<
    (Seq<char>, Json),
> {
    with_some(
        Seq::empty().push(("command"@, Json::String(path))).push(
            ("duration"@, Json::String(duration(millis))),
        ),
        "cta"@,
        match cta {
            Some(block) => Some(block_json(block)),
            None => None,
        },
    )
}

fn make_meta(path: &str, millis: u64, cta: &Option<FormattedCtaBlock>) -> (r: Vec<
    (String, Value),
>)
    ensures
        entries(r@) == collected(meta_pairs(path@, millis, opt_block(*cta))),
{
    broadcast use lemma_collected_push;

    let mut meta = new_object();
    put(&mut meta, "command", string_value(path));
    put(&mut meta, "duration", Value::String(duration_text(millis)));
    if let Some(block) = cta {
        put(&mut meta, "cta", cta_value(block));
    }
    meta
}

/// How a command's output is shown.
#[derive(Debug, Clone, Copy)]
pub struct Presentation {
    /// Whether it is shown to a human at a terminal.
    pub human: bool,
    /// Whether the output is shown at all where it is shown to a human.
    pub render: bool,
    /// The format.
    pub format: Format,
}

/// The full output of a success: with a window of tokens set, the data is cut to
/// the window and what follows it begins at `nextOffset`.
pub open spec fn full_success(
    builtin: BuiltinFlags,
    data: Json,
    text: Seq<char>,
    path: Seq<char>,
    millis: u64,
    cta: Option<Block>,
) -> Json {
    let meta = meta_pairs(path, millis, cta);
    match truncated(text, builtin.token_offset, builtin.token_limit) {
        Some((part, next)) => object(
            Seq::empty().push(("ok"@, Json::Bool(true))).push(("data"@, Json::String(part))).push(
                (
                    "meta"@,
                    object(
                        with_some(
                            meta,
                            "nextOffset"@,
                            match next {
                                Some(n) => Some(natural(n)),
                                None => None,
                            },
                        ),
                    ),
                ),
            ),
        ),
        None => object(
            Seq::empty().push(("ok"@, Json::Bool(true))).push(("data"@, data)).push(
                ("meta"@, object(meta)),
            ),
        ),
    }
}

fn make_full_success(
    builtin: &BuiltinFlags,
    data: Value,
    text: &str,
    path: &str,
    millis: u64,
    cta: &Option<FormattedCtaBlock>,
) -> (r: Value)
    requires
        window_fits(builtin.token_offset, builtin.token_limit),
    ensures
        r@ == full_success(*builtin, data@, text@, path@, millis, opt_block(*cta)),
{
    broadcast use {lemma_collected_push, lemma_object_view};

    let mut meta = make_meta(path, millis, cta);
    let mut envelope = new_object();
    put(&mut envelope, "ok", Value::Bool(true));
    match truncate_tokens(text, builtin) {
        Some((part, next)) => {
            if let Some(n) = next {
                put(&mut meta, "nextOffset", Value::Number(Number::PosInt(n as u64)));
            }
            put(&mut envelope, "data", Value::String(part));
        },
        None => {
            put(&mut envelope, "data", data);
        },
    }
    put(&mut envelope, "meta", Value::Object(meta));
    Value::Object(envelope)
}

/// The data that an agent sees: an object gets the suggestions too.
pub open spec fn with_suggestions(data: Json, cta: Option<Block>) -> Json {
    match (data, cta) {
        (Json::Object(fields), Some(block)) => Json::Object(
            stored(fields, "cta"@, block_json(block)),
        ),
        _ => data,
    }
}

/// What is shown of a success.
pub open spec fn success_report(
    builtin: BuiltinFlags,
    view: Presentation,
    data: Json,
    text: Seq<char>,
    path: Seq<char>,
    millis: u64,
    cta: Option<Block>,
) -> Seq<Shown> {
    if builtin.verbose {
        Seq::empty().push(
            Shown::Data(full_success(builtin, data, text, path, millis, cta), view.format),
        )
    } else if view.human {
        let a = if view.render {
            Seq::empty().push(Shown::Counted(data, view.format))
        } else {
            Seq::empty()
        };
        match cta {
            Some(block) => a.push(
                Shown::Text(crate::text::join(block_lines(block), "\n"@)),
            ),
            None => a,
        }
    } else {
        Seq::empty().push(Shown::Counted(with_suggestions(data, cta), view.format))
    }
}

/// Shows a success, and gives the code that it ends with, where it has one: a command
/// that succeeded may still pass on the code of a process that it wrapped. `text` is
/// the data rendered in the format of the output, and is read for the full output
/// only.
pub fn report_success(
    name: &str,
    builtin: &BuiltinFlags,
    view: Presentation,
    data: Value,
    text: &str,
    exit_code: Option<i32>,
    cta: &Option<CtaBlock>,
    skills: &Option<FormattedCtaBlock>,
    path: &str,
    millis: u64,
) -> (r: (Vec<Piece>, Option<i32>))
    requires
        window_fits(builtin.token_offset, builtin.token_limit),
    ensures
        r.1 == exit_code,
        shown(r.0@) == success_report(
            *builtin,
            view,
            data@,
            text@,
            path@,
            millis,
            merged_block(suggested_block(name@, *cta), opt_block(*skills)),
        ),
{
    broadcast use lemma_object_view;

    let block = merge_blocks(make_block(name, cta), skills);
    let mut pieces: Vec<Piece> = Vec::new();
    assert(shown(pieces@) =~= Seq::empty());
    if builtin.verbose {
        let value = make_full_success(builtin, data, text, path, millis, &block);
        push_piece(&mut pieces, Piece::Data { value, format: view.format });
        return (pieces, exit_code);
    }
    if view.human {
        if view.render {
            push_piece(&mut pieces, Piece::Counted { value: data, format: view.format });
        }
        if let Some(b) = &block {
            push_piece(&mut pieces, Piece::Text(format_human_cta(b)));
        }
        return (pieces, exit_code);
    }
    let value = match (data, &block) {
        (Value::Object(fields), Some(b)) => {
            let mut out = fields;
            put(&mut out, "cta", cta_value(b));
            Value::Object(out)
        },
        (data, _) => data,
    };
    push_piece(&mut pieces, Piece::Counted { value, format: view.format });
    (pieces, exit_code)
}

fn merge_blocks(base: Option<FormattedCtaBlock>, extra: &Option<FormattedCtaBlock>) -> (r: Option<
    FormattedCtaBlock,
>)
    ensures
        opt_block(r) == merged_block(opt_block(base), opt_block(*extra)),
{
    match extra {
        Some(e) => merge_cta(base, Some(e)),
        None => merge_cta(base, None),
    }
}

/// What an error object says.
pub open spec fn error_pairs(code: Seq<char>, message: Seq<char>, retryable: Option<bool>) -> Seq<
    (Seq<char>, Json),
> {
    with_some(
        Seq::empty().push(("code"@, Json::String(code))).push(("message"@, Json::String(message))),
        "retryable"@,
        match retryable {
            Some(b) => Some(Json::Bool(b)),
            None => None,
        },
    )
}

/// Makes an error object.
pub fn make_error(code: &str, message: &str, retryable: Option<bool>) -> (r: Vec<(String, Value)>)
    ensures
        entries(r@) == collected(error_pairs(code@, message@, retryable)),
{
    broadcast use lemma_collected_push;

    let mut fields = new_object();
    put(&mut fields, "code", string_value(code));
    put(&mut fields, "message", string_value(message));
    if let Some(b) = retryable {
        put(&mut fields, "retryable", Value::Bool(b));
    }
    fields
}

/// What is shown of a failure.
pub open spec fn error_report(
    builtin: BuiltinFlags,
    view: Presentation,
    code: Seq<char>,
    message: Seq<char>,
    retryable: Option<bool>,
    path: Seq<char>,
    millis: u64,
    cta: Option<Block>,
) -> Seq<Shown> {
    let error = error_pairs(code, message, retryable);
    if builtin.verbose {
        Seq::empty().push(
            Shown::Data(
                object(
                    Seq::empty().push(("ok"@, Json::Bool(false))).push(("error"@, object(error))).push(
                        ("meta"@, object(meta_pairs(path, millis, cta))),
                    ),
                ),
                view.format,
            ),
        )
    } else if view.human && !builtin.format_explicit {
        let a = Seq::empty().push(Shown::Text(human_error(code, message)));
        match cta {
            Some(block) => a.push(
                Shown::Text(crate::text::join(block_lines(block), "\n"@)),
            ),
            None => a,
        }
    } else {
        Seq::empty().push(
            Shown::Data(
                object(
                    with_some(
                        error,
                        "cta"@,
                        match cta {
                            Some(block) => Some(block_json(block)),
                            None => None,
                        },
                    ),
                ),
                view.format,
            ),
        )
    }
}

/// Shows a failure, and gives the exit code: the one of the failure, or 1.
pub fn report_error(
    name: &str,
    builtin: &BuiltinFlags,
    view: Presentation,
    code: &str,
    message: &str,
    retryable: Option<bool>,
    exit_code: Option<i32>,
    cta: &Option<CtaBlock>,
    skills: &Option<FormattedCtaBlock>,
    path: &str,
    millis: u64,
) -> (r: (Vec<Piece>, i32))
    ensures
        shown(r.0@) == error_report(
            *builtin,
            view,
            code@,
            message@,
            retryable,
            path@,
            millis,
            merged_block(suggested_block(name@, *cta), opt_block(*skills)),
        ),
        r.1 == match exit_code {
            Some(c) => c,
            None => 1,
        },
{
    broadcast use {lemma_collected_push, lemma_object_view};

    let block = merge_blocks(make_block(name, cta), skills);
    let exit: i32 = match exit_code {
        Some(c) => c,
        None => 1,
    };
    let mut error = make_error(code, message, retryable);
    let mut pieces: Vec<Piece> = Vec::new();
    assert(shown(pieces@) =~= Seq::empty());
    if builtin.verbose {
        let mut envelope = new_object();
        put(&mut envelope, "ok", Value::Bool(false));
        put(&mut envelope, "error", Value::Object(error));
        put(&mut envelope, "meta", Value::Object(make_meta(path, millis, &block)));
        push_piece(
            &mut pieces,
            Piece::Data { value: Value::Object(envelope), format: view.format },
        );
    } else if view.human && !builtin.format_explicit {
        push_piece(&mut pieces, Piece::Text(format_human_error(code, message)));
        if let Some(b) = &block {
            push_piece(&mut pieces, Piece::Text(format_human_cta(b)));
        }
    } else {
        if let Some(b) = &block {
            put(&mut error, "cta", cta_value(b));
        }
        push_piece(&mut pieces, Piece::Data { value: Value::Object(error), format: view.format });
    }
    (pieces, exit)
}

// ---------------------------------------------------------------------------
// Streams
// ---------------------------------------------------------------------------

/// How a stream is shown.
#[derive(Debug, Clone, Copy)]
pub struct StreamingOptions {
    /// The format.
    pub format: Format,
    /// Whether the format was asked for.
    pub format_explicit: bool,
    /// Whether the output is shown to a human at a terminal.
    pub human: bool,
    /// Whether the output is shown at all where it is shown to a human.
    pub render_output: bool,
    /// Whether the full output is wanted.
    pub verbose: bool,
}

impl StreamingOptions {
    /// Whether each chunk is a line of JSON.
    pub open spec fn by_line(&self) -> bool {
        self.format == Format::Jsonl
    }

    /// Whether chunks are shown as they arrive.
    pub open spec fn incremental(&self) -> bool {
        self.by_line() || (!self.format_explicit && self.format == Format::Toon)
    }

    /// Whether each chunk is a line of JSON.
    pub fn is_by_line(&self) -> (r: bool)
        ensures
            r == self.by_line(),
    {
        match self.format {
            Format::Jsonl => true,
            _ => false,
        }
    }

    /// Whether chunks are shown as they arrive.
    pub fn is_incremental(&self) -> (r: bool)
        ensures
            r == self.incremental(),
    {
        let toon = match self.format {
            Format::Toon => true,
            _ => false,
        };
        self.is_by_line() || (!self.format_explicit && toon)
    }
}

/// How a stream ended.
#[derive(Debug)]
pub enum StreamEnd {
    /// Without a record that ends it.
    Open,
    /// With success.
    Success {
        /// Optional follow-up commands.
        cta: Option<CtaBlock>,
    },
    /// With a failure.
    Error {
        /// Machine-readable error code.
        code: String,
        /// Human-readable error message.
        message: String,
        /// Whether retrying may succeed.
        retryable: bool,
        /// Optional process exit code.
        exit_code: Option<i32>,
        /// Optional follow-up commands.
        cta: Option<CtaBlock>,
    },
}

/// The chunks of a stream that are kept until its end.
#[derive(Debug)]
pub struct StreamOutput {
    /// The chunks.
    pub chunks: Vec<Value>,
}

/// What is shown of a chunk when it arrives.
pub open spec fn chunk_shown(options: StreamingOptions, value: Json) -> Seq<Shown> {
    if options.by_line() {
        Seq::empty().push(
            Shown::Line(
                object(
                    Seq::empty().push(("type"@, Json::String("chunk"@))).push(("data"@, value)),
                ),
            ),
        )
    } else if options.incremental() && options.render_output {
        Seq::empty().push(Shown::Data(value, options.format))
    } else {
        Seq::empty()
    }
}

/// What is shown at the end of a stream that did not fail, with the chunks that
/// were kept.
pub open spec fn done_shown(
    options: StreamingOptions,
    chunks: Seq<Json>,
    path: Seq<char>,
    millis: u64,
    cta: Option<Block>,
) -> Seq<Shown> {
    if options.by_line() {
        Seq::empty().push(
            Shown::Line(
                object(
                    Seq::empty().push(("type"@, Json::String("done"@))).push(
                        ("ok"@, Json::Bool(true)),
                    ).push(("meta"@, object(meta_pairs(path, millis, cta)))),
                ),
            ),
        )
    } else if options.incremental() {
        Seq::empty()
    } else if options.verbose {
        Seq::empty().push(
            Shown::Data(
                object(
                    Seq::empty().push(("ok"@, Json::Bool(true))).push(
                        ("data"@, Json::Array(chunks)),
                    ).push(("meta"@, object(meta_pairs(path, millis, None)))),
                ),
                options.format,
            ),
        )
    } else if !options.human || options.render_output {
        Seq::empty().push(Shown::Data(Json::Array(chunks), options.format))
    } else {
        Seq::empty()
    }
}

/// The retry mark of a stream's failure.
pub open spec fn retry_mark(retryable: bool) -> Option<bool> {
    if retryable {
        Some(true)
    } else {
        None
    }
}

/// What is shown where a stream failed.
pub open spec fn failed_shown(
    options: StreamingOptions,
    code: Seq<char>,
    message: Seq<char>,
    retryable: bool,
    path: Seq<char>,
    millis: u64,
    cta: Option<Block>,
) -> Seq<Shown> {
    let error = object(error_pairs(code, message, retry_mark(retryable)));
    if options.by_line() {
        Seq::empty().push(
            Shown::Line(
                object(
                    Seq::empty().push(("type"@, Json::String("error"@))).push(
                        ("ok"@, Json::Bool(false)),
                    ).push(("error"@, error)),
                ),
            ),
        )
    } else if options.verbose || !options.incremental() {
        Seq::empty().push(
            Shown::Data(
                object(
                    Seq::empty().push(("ok"@, Json::Bool(false))).push(("error"@, error)).push(
                        ("meta"@, object(meta_pairs(path, millis, cta))),
                    ),
                ),
                options.format,
            ),
        )
    } else {
        Seq::empty().push(Shown::Text(human_error(code, message)))
    }
}

impl StreamOutput {
    /// Starts the output of a stream.
    pub fn start() -> (r: Self)
        ensures
            values(r.chunks@) == Seq::<Json>::empty(),
    {
        let r = StreamOutput { chunks: Vec::new() };
        assert(values(r.chunks@) =~= Seq::empty());
        r
    }

    /// Takes a chunk: it is shown at once where chunks are shown as they arrive,
    /// and kept otherwise.
    pub fn chunk(&mut self, options: &StreamingOptions, value: Value) -> (r: Vec<Piece>)
        ensures
            shown(r@) == chunk_shown(*options, value@),
            values(final(self).chunks@) == (if options.incremental() {
                values(old(self).chunks@)
            } else {
                values(old(self).chunks@).push(value@)
            }),
    {
        broadcast use {lemma_collected_push, lemma_object_view};

        let mut pieces: Vec<Piece> = Vec::new();
        assert(shown(pieces@) =~= Seq::empty());
        if options.is_by_line() {
            let mut fields = new_object();
            put(&mut fields, "type", string_value("chunk"));
            put(&mut fields, "data", value);
            push_piece(&mut pieces, Piece::Line(Value::Object(fields)));
        } else if options.is_incremental() {
            if options.render_output {
                push_piece(&mut pieces, Piece::Data { value, format: options.format });
            }
        } else {
            let ghost was = values(self.chunks@);
            let ghost next = value@;
            self.chunks.push(value);
            assert(values(self.chunks@) =~= was.push(next));
        }
        pieces
    }

    fn done(
        self,
        options: &StreamingOptions,
        path: &str,
        millis: u64,
        cta: &Option<FormattedCtaBlock>,
    ) -> (r: Vec<Piece>)
        ensures
            shown(r@) == done_shown(
                *options,
                values(self.chunks@),
                path@,
                millis,
                opt_block(*cta),
            ),
    {
        broadcast use {lemma_collected_push, lemma_object_view, lemma_array_view};

        let mut pieces: Vec<Piece> = Vec::new();
        assert(shown(pieces@) =~= Seq::empty());
        if options.is_by_line() {
            let mut fields = new_object();
            put(&mut fields, "type", string_value("done"));
            put(&mut fields, "ok", Value::Bool(true));
            put(&mut fields, "meta", Value::Object(make_meta(path, millis, cta)));
            push_piece(&mut pieces, Piece::Line(Value::Object(fields)));
        } else if !options.is_incremental() {
            let data = Value::Array(self.chunks);
            if options.verbose {
                let mut fields = new_object();
                put(&mut fields, "ok", Value::Bool(true));
                put(&mut fields, "data", data);
                put(&mut fields, "meta", Value::Object(make_meta(path, millis, &None)));
                push_piece(
                    &mut pieces,
                    Piece::Data { value: Value::Object(fields), format: options.format },
                );
            } else if !options.human || options.render_output {
                push_piece(&mut pieces, Piece::Data { value: data, format: options.format });
            }
        }
        pieces
    }

    /// Takes the end of a stream, and gives what is shown and the exit code where
    /// the stream failed.
    pub fn end(
        self,
        name: &str,
        options: &StreamingOptions,
        end: &StreamEnd,
        path: &str,
        millis: u64,
    ) -> (r: (Vec<Piece>, Option<i32>))
        ensures
            match *end {
                StreamEnd::Error { code, message, retryable, exit_code, cta } => {
                    &&& shown(r.0@) == failed_shown(
                        *options,
                        code@,
                        message@,
                        retryable,
                        path@,
                        millis,
                        suggested_block(name@, cta),
                    )
                    &&& r.1 == Some(
                        match exit_code {
                            Some(c) => c,
                            None => 1i32,
                        },
                    )
                },
                StreamEnd::Success { cta } => {
                    &&& shown(r.0@) == done_shown(
                        *options,
                        values(self.chunks@),
                        path@,
                        millis,
                        suggested_block(name@, cta),
                    )
                    &&& r.1 is None
                },
                StreamEnd::Open => {
                    &&& shown(r.0@) == done_shown(
                        *options,
                        values(self.chunks@),
                        path@,
                        millis,
                        None,
                    )
                    &&& r.1 is None
                },
            },
    {
        match end {
            StreamEnd::Error { code, message, retryable, exit_code, cta } => {
                let block = make_block(name, cta);
                let pieces = stream_failure(
                    options,
                    code.as_str(),
                    message.as_str(),
                    *retryable,
                    path,
                    millis,
                    &block,
                );
                let exit: i32 = match exit_code {
                    Some(c) => *c,
                    None => 1,
                };
                (pieces, Some(exit))
            },
            StreamEnd::Success { cta } => {
                let block = make_block(name, cta);
                (self.done(options, path, millis, &block), None)
            },
            StreamEnd::Open => (self.done(options, path, millis, &None), None),
        }
    }
}

fn stream_failure(
    options: &StreamingOptions,
    code: &str,
    message: &str,
    retryable: bool,
    path: &str,
    millis: u64,
    cta: &Option<FormattedCtaBlock>,
) -> (r: Vec<Piece>)
    ensures
        shown(r@) == failed_shown(
            *options,
            code@,
            message@,
            retryable,
            path@,
            millis,
            opt_block(*cta),
        ),
{
    broadcast use {lemma_collected_push, lemma_object_view};

    let mark: Option<bool> = if retryable {
        Some(true)
    } else {
        None
    };
    let error = Value::Object(make_error(code, message, mark));
    let mut pieces: Vec<Piece> = Vec::new();
    assert(shown(pieces@) =~= Seq::empty());
    if options.is_by_line() {
        let mut fields = new_object();
        put(&mut fields, "type", string_value("error"));
        put(&mut fields, "ok", Value::Bool(false));
        put(&mut fields, "error", error);
        push_piece(&mut pieces, Piece::Line(Value::Object(fields)));
    } else if options.verbose || !options.is_incremental() {
        let mut fields = new_object();
        put(&mut fields, "ok", Value::Bool(false));
        put(&mut fields, "error", error);
        put(&mut fields, "meta", Value::Object(make_meta(path, millis, cta)));
        push_piece(
            &mut pieces,
            Piece::Data { value: Value::Object(fields), format: options.format },
        );
    } else {
        push_piece(&mut pieces, Piece::Text(format_human_error(code, message)));
    }
    pieces
}

// ---------------------------------------------------------------------------
// Laws
// ---------------------------------------------------------------------------

/// What is shown of the chunks of a stream, one behind the other.
pub open spec fn chunks_shown(options: StreamingOptions, chunks: Seq<Json>) -> Seq<Shown>
    decreases chunks.len(),
{
    if chunks.len() == 0 {
        Seq::empty()
    } else {
        chunks_shown(options, chunks.drop_last()) + chunk_shown(options, chunks.last())
    }
}

/// A stream written line by line shows one line for each chunk, in their order,
/// and one for its end.
pub proof fn law_one_line_per_chunk(
    options: StreamingOptions,
    chunks: Seq<Json>,
    path: Seq<char>,
    millis: u64,
    cta: Option<Block>,
    i: int,
)
    requires
        options.format == Format::Jsonl,
        0 <= i < chunks.len(),
    ensures
        chunks_shown(options, chunks).len() == chunks.len(),
        chunks_shown(options, chunks)[i] == Shown::Line(
            object(
                Seq::empty().push(("type"@, Json::String("chunk"@))).push(("data"@, chunks[i])),
            ),
        ),
        done_shown(options, Seq::empty(), path, millis, cta).len() == 1,
    decreases chunks.len(),
{
    let head = chunks.drop_last();
    if head.len() > 0 {
        law_one_line_per_chunk(
            options,
            head,
            path,
            millis,
            cta,
            if i < head.len() {
                i
            } else {
                0
            },
        );
    } else {
        assert(chunks_shown(options, head) =~= Seq::empty());
    }
}

/// A stream that is not shown as it arrives shows nothing before its end, and
/// then all of its chunks in one array.
pub proof fn law_buffered_streams_show_one_array(
    options: StreamingOptions,
    chunks: Seq<Json>,
    path: Seq<char>,
    millis: u64,
)
    requires
        !options.incremental(),
        !options.verbose,
        !options.human || options.render_output,
    ensures
        chunks_shown(options, chunks) == Seq::<Shown>::empty(),
        done_shown(options, chunks, path, millis, None) == Seq::<Shown>::empty().push(
            Shown::Data(Json::Array(chunks), options.format),
        ),
    decreases chunks.len(),
{
    if chunks.len() > 0 {
        law_buffered_streams_show_one_array(options, chunks.drop_last(), path, millis);
    }
}

/// Whether a piece carries a value.
pub open spec fn carries_value(piece: Shown) -> bool {
    piece is Counted || piece is Data || piece is Line
}

/// Without the full output, a human is shown the data of a success first, in the format
/// of the output, exactly when output is rendered; suggestions follow as a text, and
/// nothing else is shown.
pub proof fn law_success_is_shown_to_humans(
    builtin: BuiltinFlags,
    view: Presentation,
    data: Json,
    text: Seq<char>,
    path: Seq<char>,
    millis: u64,
    cta: Option<Block>,
)
    requires
        !builtin.verbose,
        view.human,
    ensures
        ({
            let pieces = success_report(builtin, view, data, text, path, millis, cta);
            &&& view.render ==> pieces.len() > 0 && pieces[0] == Shown::Counted(data, view.format)
            &&& !view.render ==> forall|i: int|
                0 <= i < pieces.len() ==> !carries_value(#[trigger] pieces[i])
            &&& pieces.len() == (if view.render {
                1int
            } else {
                0int
            }) + (if cta is Some {
                1int
            } else {
                0int
            })
            &&& cta is Some ==> pieces.last() is Text
        }),
{
}

/// Without the full output, an agent is shown one value in the format of the output,
/// whether or not output is rendered for humans. It is the data of the success; where
/// that is an object and there are suggestions, these stand in it under `cta` and
/// everything else is as it was.
pub proof fn law_success_is_shown_to_agents(
    builtin: BuiltinFlags,
    view: Presentation,
    data: Json,
    text: Seq<char>,
    path: Seq<char>,
    millis: u64,
    cta: Option<Block>,
    key: Seq<char>,
)
    requires
        !builtin.verbose,
        !view.human,
    ensures
        ({
            let pieces = success_report(builtin, view, data, text, path, millis, cta);
            &&& pieces.len() == 1
            &&& pieces[0] matches Shown::Counted(value, format)
            &&& format == view.format
            &&& cta is None || !(data is Object) ==> value == data
            &&& cta is Some && data is Object ==> value is Object && field(value, "cta"@) == Some(
                block_json(cta->0),
            ) && (key != "cta"@ ==> field(value, key) == field(data, key))
        }),
{
    if cta is Some && data is Object {
        crate::table::lemma_lookup_stored(data->Object_0, "cta"@, block_json(cta->0), key);
        crate::table::lemma_lookup_stored(data->Object_0, "cta"@, block_json(cta->0), "cta"@);
    }
}

/// The keys of an envelope differ.
proof fn lemma_envelope_keys()
    ensures
        "ok"@ != "data"@,
        "ok"@ != "meta"@,
        "ok"@ != "error"@,
        "ok"@ != "type"@,
        "data"@ != "meta"@,
        "data"@ != "error"@,
        "data"@ != "type"@,
        "meta"@ != "error"@,
        "meta"@ != "type"@,
        "error"@ != "type"@,
{
    reveal_strlit("ok");
    reveal_strlit("data");
    reveal_strlit("meta");
    reveal_strlit("error");
    reveal_strlit("type");
    assert("ok"@.len() == 2);
    assert("data"@.len() == 4);
    assert("meta"@.len() == 4);
    assert("error"@.len() == 5);
    assert("type"@.len() == 4);
    assert("data"@[0] == 'd');
    assert("meta"@[0] == 'm');
    assert("type"@[0] == 't');
}

/// The keys of metadata differ.
proof fn lemma_meta_keys()
    ensures
        "command"@ != "duration"@,
        "command"@ != "cta"@,
        "command"@ != "nextOffset"@,
        "duration"@ != "cta"@,
        "duration"@ != "nextOffset"@,
        "cta"@ != "nextOffset"@,
{
    reveal_strlit("command");
    reveal_strlit("duration");
    reveal_strlit("cta");
    reveal_strlit("nextOffset");
    assert("command"@.len() == 7);
    assert("duration"@.len() == 8);
    assert("cta"@.len() == 3);
    assert("nextOffset"@.len() == 10);
}

/// The keys of an error differ.
proof fn lemma_error_keys()
    ensures
        "code"@ != "message"@,
        "code"@ != "retryable"@,
        "code"@ != "cta"@,
        "message"@ != "retryable"@,
        "message"@ != "cta"@,
        "retryable"@ != "cta"@,
{
    reveal_strlit("code");
    reveal_strlit("message");
    reveal_strlit("retryable");
    reveal_strlit("cta");
    assert("code"@.len() == 4);
    assert("message"@.len() == 7);
    assert("retryable"@.len() == 9);
    assert("cta"@.len() == 3);
}

/// What the metadata of a result says: the path of the command, the milliseconds that
/// it took, and the suggestions where there are any.
pub open spec fn tells(meta: Json, path: Seq<char>, millis: u64, cta: Option<Block>) -> bool {
    &&& field(meta, "command"@) == Some(Json::String(path))
    &&& field(meta, "duration"@) == Some(Json::String(decimal(millis as nat) + "ms"@))
    &&& field(meta, "cta"@) == (match cta {
        Some(block) => Some(block_json(block)),
        None => None,
    })
}

proof fn lemma_meta(path: Seq<char>, millis: u64, cta: Option<Block>)
    ensures
        tells(object(meta_pairs(path, millis, cta)), path, millis, cta),
        field(object(meta_pairs(path, millis, cta)), "nextOffset"@) is None,
{
    broadcast use {lemma_collected_found, lemma_nothing_collected};

    lemma_envelope_keys();
    lemma_meta_keys();
    lemma_error_keys();
}

/// The full output of a success is one object in the format of the output: it is marked
/// as a success and holds the data and the metadata. With a window of tokens the data
/// is the text in the window, and `nextOffset` tells where the next one begins, where
/// there is one.
pub proof fn law_full_success_holds_the_data(
    builtin: BuiltinFlags,
    view: Presentation,
    data: Json,
    text: Seq<char>,
    path: Seq<char>,
    millis: u64,
    cta: Option<Block>,
)
    requires
        builtin.verbose,
    ensures
        ({
            let pieces = success_report(builtin, view, data, text, path, millis, cta);
            &&& pieces.len() == 1
            &&& pieces[0] matches Shown::Data(value, format)
            &&& format == view.format
            &&& field(value, "ok"@) == Some(Json::Bool(true))
            &&& field(value, "error"@) is None
            &&& field(value, "meta"@) matches Some(meta)
            &&& tells(meta, path, millis, cta)
            &&& builtin.token_limit is None && builtin.token_offset is None ==> field(
                value,
                "data"@,
            ) == Some(data) && field(meta, "nextOffset"@) is None
            &&& truncated(text, builtin.token_offset, builtin.token_limit) matches Some((
                part,
                next,
            )) ==> field(value, "data"@) == Some(Json::String(part)) && field(meta, "nextOffset"@)
                == (match next {
                Some(n) => Some(Json::Number(Number::PosInt(n as u64))),
                None => None,
            })
        }),
{
    broadcast use {lemma_collected_found, lemma_nothing_collected};

    lemma_envelope_keys();
    lemma_meta_keys();
    lemma_error_keys();
    lemma_meta(path, millis, cta);
}

/// What an error object says: code and message, and the retry mark where there is one.
pub open spec fn says_error(
    error: Json,
    code: Seq<char>,
    message: Seq<char>,
    retryable: Option<bool>,
) -> bool {
    &&& field(error, "code"@) == Some(Json::String(code))
    &&& field(error, "message"@) == Some(Json::String(message))
    &&& field(error, "retryable"@) == (match retryable {
        Some(b) => Some(Json::Bool(b)),
        None => None,
    })
}

/// A failure is always shown: as an object with `ok` false, the error and the metadata
/// in the full output; as a text with code and message to a human who asked for no
/// format; and as the error object itself otherwise.
pub proof fn law_failures_are_shown(
    builtin: BuiltinFlags,
    view: Presentation,
    code: Seq<char>,
    message: Seq<char>,
    retryable: Option<bool>,
    path: Seq<char>,
    millis: u64,
    cta: Option<Block>,
)
    ensures
        ({
            let pieces = error_report(
                builtin,
                view,
                code,
                message,
                retryable,
                path,
                millis,
                cta,
            );
            &&& pieces.len() > 0
            &&& builtin.verbose ==> {
                &&& pieces.len() == 1
                &&& pieces[0] matches Shown::Data(value, format)
                &&& format == view.format
                &&& field(value, "ok"@) == Some(Json::Bool(false))
                &&& field(value, "data"@) is None
                &&& field(value, "error"@) matches Some(error)
                &&& says_error(error, code, message, retryable)
                &&& field(value, "meta"@) matches Some(meta)
                &&& tells(meta, path, millis, cta)
            }
            &&& !builtin.verbose && view.human && !builtin.format_explicit ==> {
                &&& pieces[0] == Shown::Text(human_error(code, message))
                &&& forall|i: int| 0 <= i < pieces.len() ==> #[trigger] pieces[i] is Text
                &&& pieces.len() == (if cta is Some {
                    2int
                } else {
                    1int
                })
            }
            &&& !builtin.verbose && !(view.human && !builtin.format_explicit) ==> {
                &&& pieces.len() == 1
                &&& pieces[0] matches Shown::Data(value, format)
                &&& format == view.format
                &&& says_error(value, code, message, retryable)
                &&& field(value, "cta"@) == (match cta {
                    Some(block) => Some(block_json(block)),
                    None => None,
                })
            }
        }),
{
    broadcast use {lemma_collected_found, lemma_nothing_collected};

    lemma_envelope_keys();
    lemma_meta_keys();
    lemma_error_keys();
    lemma_meta(path, millis, cta);
}

/// A chunk of a stream that is shown as it arrives is shown whole and at once where
/// output is rendered; a stream by lines shows it in any case.
pub proof fn law_chunks_are_shown(options: StreamingOptions, value: Json)
    ensures
        ({
            let pieces = chunk_shown(options, value);
            &&& options.format == Format::Jsonl ==> {
                &&& pieces.len() == 1
                &&& pieces[0] matches Shown::Line(line)
                &&& field(line, "type"@) == Some(Json::String("chunk"@))
                &&& field(line, "data"@) == Some(value)
            }
            &&& options.format == Format::Toon && !options.format_explicit
                && options.render_output ==> pieces == seq![Shown::Data(value, options.format)]
            &&& options.format == Format::Toon && !options.format_explicit
                && !options.render_output ==> pieces.len() == 0
            &&& options.format != Format::Jsonl && (options.format != Format::Toon
                || options.format_explicit) ==> pieces.len() == 0
        }),
{
    broadcast use {lemma_collected_found, lemma_nothing_collected};

    lemma_envelope_keys();
    lemma_meta_keys();
    lemma_error_keys();
    assert(seq![Shown::Data(value, options.format)] =~= Seq::empty().push(
        Shown::Data(value, options.format),
    ));
}

/// The end of a stream that did not fail: a stream by lines ends in a line that says so
/// and holds the metadata; one that was kept is shown whole, in the full output with
/// the metadata around it; and one that was shown as it arrived adds nothing.
pub proof fn law_streams_end(
    options: StreamingOptions,
    chunks: Seq<Json>,
    path: Seq<char>,
    millis: u64,
    cta: Option<Block>,
)
    ensures
        ({
            let pieces = done_shown(options, chunks, path, millis, cta);
            let kept = options.format != Format::Jsonl && (options.format != Format::Toon
                || options.format_explicit);
            &&& options.format == Format::Jsonl ==> {
                &&& pieces.len() == 1
                &&& pieces[0] matches Shown::Line(line)
                &&& field(line, "type"@) == Some(Json::String("done"@))
                &&& field(line, "ok"@) == Some(Json::Bool(true))
                &&& field(line, "meta"@) matches Some(meta)
                &&& tells(meta, path, millis, cta)
            }
            &&& options.format == Format::Toon && !options.format_explicit ==> pieces.len() == 0
            &&& kept && options.verbose ==> {
                &&& pieces.len() == 1
                &&& pieces[0] matches Shown::Data(value, format)
                &&& format == options.format
                &&& field(value, "ok"@) == Some(Json::Bool(true))
                &&& field(value, "data"@) == Some(Json::Array(chunks))
                &&& field(value, "meta"@) matches Some(meta)
                &&& tells(meta, path, millis, None)
            }
            &&& kept && !options.verbose && (!options.human || options.render_output) ==> pieces
                == seq![Shown::Data(Json::Array(chunks), options.format)]
            &&& kept && !options.verbose && options.human && !options.render_output
                ==> pieces.len() == 0
        }),
{
    broadcast use {lemma_collected_found, lemma_nothing_collected};

    lemma_envelope_keys();
    lemma_meta_keys();
    lemma_error_keys();
    lemma_meta(path, millis, cta);
    lemma_meta(path, millis, None);
    assert(seq![Shown::Data(Json::Array(chunks), options.format)] =~= Seq::empty().push(
        Shown::Data(Json::Array(chunks), options.format),
    ));
}

/// A stream that fails says so in one piece, with code and message: as a line where the
/// stream is one by lines, as a text where it was shown as it arrived and the full
/// output is not wanted, and as an object otherwise.
pub proof fn law_failed_streams_say_so(
    options: StreamingOptions,
    code: Seq<char>,
    message: Seq<char>,
    retryable: bool,
    path: Seq<char>,
    millis: u64,
    cta: Option<Block>,
)
    ensures
        ({
            let pieces = failed_shown(options, code, message, retryable, path, millis, cta);
            let mark = if retryable {
                Some(true)
            } else {
                None
            };
            let arriving = options.format == Format::Toon && !options.format_explicit;
            &&& pieces.len() == 1
            &&& options.format == Format::Jsonl ==> {
                &&& pieces[0] matches Shown::Line(line)
                &&& field(line, "type"@) == Some(Json::String("error"@))
                &&& field(line, "ok"@) == Some(Json::Bool(false))
                &&& field(line, "error"@) matches Some(error)
                &&& says_error(error, code, message, mark)
            }
            &&& options.format != Format::Jsonl && arriving && !options.verbose ==> pieces[0]
                == Shown::Text(human_error(code, message))
            &&& options.format != Format::Jsonl && (!arriving || options.verbose) ==> {
                &&& pieces[0] matches Shown::Data(value, format)
                &&& format == options.format
                &&& field(value, "ok"@) == Some(Json::Bool(false))
                &&& field(value, "error"@) matches Some(error)
                &&& says_error(error, code, message, mark)
                &&& field(value, "meta"@) matches Some(meta)
                &&& tells(meta, path, millis, cta)
            }
        }),
{
    broadcast use {lemma_collected_found, lemma_nothing_collected};

    lemma_envelope_keys();
    lemma_meta_keys();
    lemma_error_keys();
    lemma_meta(path, millis, cta);
}

/// Whoever sees a result without the full output sees the same data: what a human is
/// shown of a rendered success without suggestions is what an agent is shown.
pub proof fn law_humans_and_agents_see_the_same_data(
    builtin: BuiltinFlags,
    format: Format,
    data: Json,
    text: Seq<char>,
    path: Seq<char>,
    millis: u64,
)
    requires
        !builtin.verbose,
    ensures
        success_report(
            builtin,
            Presentation { human: true, render: true, format },
            data,
            text,
            path,
            millis,
            None,
        ) == success_report(
            builtin,
            Presentation { human: false, render: true, format },
            data,
            text,
            path,
            millis,
            None,
        ),
{
}

/// The suggestion to sync skills is made exactly where skills are installed and a hash
/// is stored that is not that of the commands, and names the command that syncs them.
pub proof fn law_stale_skills_are_suggested(
    name: Seq<char>,
    stored: Option<Seq<char>>,
    installed: bool,
    live: Seq<char>,
)
    ensures
        skills_block(name, stored, installed, live) is Some <==> installed && stored is Some
            && stored->0 != live,
        skills_block(name, stored, installed, live) matches Some((_, commands)) ==> commands.len()
            == 1 && commands[0].0 == name + " skills add"@,
{
}

/// A block of suggestions is made exactly where there is a suggestion to make.
pub proof fn law_suggestions_make_a_block(name: Seq<char>, block: CtaBlock)
    ensures
        suggested_block(name, None) is None,
        block.commands@.len() == 0 ==> suggested_block(name, Some(block)) is None,
        block.commands@.len() > 0 ==> suggested_block(name, Some(block)) is Some,
{
}

} // verus!
