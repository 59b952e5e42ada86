//! The decisions of one command execution.
//!
//! An execution begins with the input that the transport hands over. Depending
//! on the parse mode the input is parsed from tokens or split and checked; a
//! refused input ends the execution, an accepted one is handed to the handler
//! in a [`CommandContext`]. What the handler answers becomes the result, which
//! for a stream has to be handed on before the middleware around the command
//! ends.

use vstd::prelude::*;
use crate::command::input::{
    chosen_params, env_object, parse_args_from_argv, parse_env_fields, positional,
    split_flat_params, InputError,
};
use crate::command::{CommandDef, ParseMode, TypedResult};
use crate::output::{CtaBlock, FieldErrorOutput, Format};
use crate::schema::FieldMeta;
use crate::table::text_table;
use crate::text::{cat3, texts};
use crate::value::{copy_entries, entries, lemma_object_view, Json, Value};

verus! {

/// Transport request metadata available to HTTP and MCP command executions.
#[derive(Debug, Clone)]
pub struct RequestContext {
    /// Request headers as lowercase names and string values.
    pub headers: Vec<(String, String)>,
    /// Request method or transport operation.
    pub method: String,
    /// Request path or MCP tool name.
    pub path: String,
}

impl Default for RequestContext {
    fn default() -> (r: Self)
        ensures
            r.headers@.len() == 0,
            r.method@.len() == 0,
            r.path@.len() == 0,
    {
        RequestContext { headers: Vec::new(), method: String::new(), path: String::new() }
    }
}

/// The context passed to a command's `run` function.
///
/// Contains all parsed input (args, options, env) and metadata about the
/// current execution (format, agent mode, CLI name, etc.).
#[derive(Debug)]
pub struct CommandContext {
    /// Whether the consumer is an agent (stdout is not a TTY).
    pub agent: bool,
    /// Parsed positional arguments as a JSON value.
    pub args: Value,
    /// Parsed environment variables as a JSON value.
    pub env: Value,
    /// The actual CLI display name used for user-facing messages.
    pub display_name: String,
    /// Parsed CLI-level global options.
    pub globals: Value,
    /// Parsed named options as a JSON value.
    pub options: Value,
    /// Transport request metadata for HTTP and MCP invocations.
    pub request: Option<RequestContext>,
    /// The resolved output format.
    pub format: Format,
    /// Whether the format was explicitly requested by the user.
    pub format_explicit: bool,
    /// The CLI name.
    pub name: String,
    /// Middleware variables set by upstream middleware.
    pub vars: Value,
    /// The CLI version string.
    pub version: Option<String>,
}

/// What an execution is started with.
///
/// Each transport constructs these options differently, but executions process
/// them uniformly.
#[derive(Debug)]
pub struct ExecuteOptions {
    /// Whether the consumer is an agent.
    pub agent: bool,
    /// Raw positional tokens. For HTTP/MCP, pass an empty vec.
    pub argv: Vec<String>,
    /// Default option values from config file.
    pub defaults: Option<Vec<(String, Value)>>,
    /// The actual CLI display name used for user-facing messages.
    pub display_name: String,
    /// CLI-level env field metadata.
    pub env_fields: Vec<FieldMeta>,
    /// Source for environment variables (key-value table).
    pub env_source: Vec<(String, String)>,
    /// The resolved output format.
    pub format: Format,
    /// Whether the format was explicitly requested.
    pub format_explicit: bool,
    /// Parsed CLI-level global options.
    pub globals: Value,
    /// Raw parsed options (from query params, JSON body, or MCP params).
    pub input_options: Vec<(String, Value)>,
    /// Middleware handlers (root + group + command, already collected).
    pub middlewares: Vec<usize>,
    /// The CLI name.
    pub name: String,
    /// How to parse input for this invocation.
    pub parse_mode: ParseMode,
    /// The resolved command path (e.g. `"users list"`).
    pub path: String,
    /// Transport request metadata for HTTP and MCP invocations.
    pub request: Option<RequestContext>,
    /// Vars field metadata for middleware variables.
    pub vars_fields: Vec<FieldMeta>,
    /// The CLI version string.
    pub version: Option<String>,
}

/// What a command handler answers.
#[derive(Debug)]
pub enum CommandResult {
    /// Successful output with optional CTA metadata and exit code.
    Success {
        /// The output.
        data: Value,
        /// Optional follow-up commands.
        cta: Option<CtaBlock>,
        /// Optional process exit code.
        exit_code: Option<i32>,
    },
    /// Structured command failure.
    Error {
        /// Machine-readable error code.
        code: String,
        /// Human-readable error message.
        message: String,
        /// Whether retrying may succeed.
        retryable: bool,
        /// Optional process exit code.
        exit_code: Option<i32>,
        /// Optional follow-up commands.
        cta: Option<CtaBlock>,
    },
    /// A stream of values.
    Stream,
    /// A stream of records with explicit terminal semantics.
    RecordStream,
}

/// Internal execute result (before output envelope wrapping).
///
/// Each transport wraps it in its own output format (CLI writes to stdout,
/// HTTP returns a response, MCP returns tool results).
#[derive(Debug)]
pub enum InternalResult {
    /// Successful execution with data.
    Success {
        /// The output.
        data: Value,
        /// Optional follow-up commands.
        cta: Option<CtaBlock>,
        /// Optional process exit code.
        exit_code: Option<i32>,
    },
    /// Failed execution with error details.
    Error {
        /// Machine-readable error code.
        code: String,
        /// Human-readable error message.
        message: String,
        /// Whether retrying may succeed.
        retryable: Option<bool>,
        /// The failures of single fields.
        field_errors: Option<Vec<FieldErrorOutput>>,
        /// Optional follow-up commands.
        cta: Option<CtaBlock>,
        /// Optional process exit code.
        exit_code: Option<i32>,
    },
    /// Streaming output. The transport consumes the stream and writes
    /// each item incrementally (JSONL) or buffers them.
    Stream,
    /// Streaming output with explicit terminal semantics.
    RecordStream,
}

/// What has to be done with the input of a command.
#[derive(Debug)]
pub enum InputPlan {
    /// Parse the tokens by the fields of the command.
    ParseTokens,
    /// Coerce these arguments and options by the fields of the command, and
    /// check them.
    Check {
        /// The arguments.
        args: Value,
        /// The options.
        options: Value,
    },
}

/// Plans how the input of a command is parsed: from its tokens; with arguments
/// from the tokens and options as given; or with the parameters given split by
/// the fields of the command. `floats` holds the number that each token writes
/// in floating point, if it writes one.
pub fn plan_input(command: &CommandDef, options: &ExecuteOptions, floats: &Vec<Option<u64>>) -> (r:
    InputPlan)
    requires
        floats@.len() == options.argv@.len(),
    ensures
        match options.parse_mode {
            ParseMode::Argv => r is ParseTokens,
            ParseMode::Split => r matches InputPlan::Check { args, options: o } && args@
                == Json::Object(
                positional(texts(options.argv@), command.args_fields@, floats@),
            ) && o@ == Json::Object(entries(options.input_options@)),
            ParseMode::Flat => r matches InputPlan::Check { args, options: o } && args@
                == Json::Object(
                chosen_params(entries(options.input_options@), command.args_fields@, true),
            ) && o@ == Json::Object(
                chosen_params(entries(options.input_options@), command.args_fields@, false),
            ),
        },
{
    broadcast use lemma_object_view;

    match options.parse_mode {
        ParseMode::Argv => InputPlan::ParseTokens,
        ParseMode::Split => {
            let args = parse_args_from_argv(&options.argv, &command.args_fields, floats);
            let given = Value::Object(copy_entries(&options.input_options));
            InputPlan::Check { args, options: given }
        },
        ParseMode::Flat => {
            let (args, given) = split_flat_params(
                &options.input_options,
                &command.args_fields,
                &command.options_fields,
            );
            InputPlan::Check { args, options: given }
        },
    }
}

/// How far an execution is.
#[derive(Debug)]
pub enum Stage {
    /// The handler was not called yet.
    Waiting,
    /// The handler was called and has not answered.
    Running,
    /// The result is there; for a stream with middleware around it the
    /// execution waits for the stream to be consumed.
    Settled {
        /// Whether the execution waits for its stream.
        waits: bool,
    },
}

/// One command execution.
#[derive(Debug)]
pub struct Execution {
    /// Whether there is middleware around the command.
    pub has_middleware: bool,
    /// How far the execution is.
    pub stage: Stage,
    /// The result, once there is one.
    pub result: Option<InternalResult>,
}

/// The result of an execution whose handler was never called or never answered.
pub open spec fn is_empty_success(r: InternalResult) -> bool {
    r matches InternalResult::Success { data, cta, exit_code } && data == Value::Null && cta is None
        && exit_code is None
}

/// The result that an answer becomes. A failure that cannot be retried says
/// nothing about retrying.
pub open spec fn settled(answer: CommandResult) -> InternalResult {
    match answer {
        CommandResult::Success { data, cta, exit_code } => InternalResult::Success {
            data,
            cta,
            exit_code,
        },
        CommandResult::Error { code, message, retryable, exit_code, cta } => {
            InternalResult::Error {
                code,
                message,
                retryable: if retryable {
                    Some(true)
                } else {
                    None
                },
                field_errors: None,
                cta,
                exit_code,
            }
        },
        CommandResult::Stream => InternalResult::Stream,
        CommandResult::RecordStream => InternalResult::RecordStream,
    }
}

/// Whether an answer is a stream.
pub open spec fn streams(answer: CommandResult) -> bool {
    answer is Stream || answer is RecordStream
}

/// Makes a result of what a handler answered.
pub fn settle(answer: CommandResult) -> (r: InternalResult)
    ensures
        r == settled(answer),
{
    match answer {
        CommandResult::Success { data, cta, exit_code } => InternalResult::Success {
            data,
            cta,
            exit_code,
        },
        CommandResult::Error { code, message, retryable, exit_code, cta } => {
            let retry: Option<bool> = if retryable {
                Some(true)
            } else {
                None
            };
            InternalResult::Error {
                code,
                message,
                retryable: retry,
                field_errors: None,
                cta,
                exit_code,
            }
        },
        CommandResult::Stream => InternalResult::Stream,
        CommandResult::RecordStream => InternalResult::RecordStream,
    }
}

impl Execution {
    /// Whether the result is there exactly if the execution is settled, and
    /// only an execution with middleware and a stream waits.
    pub open spec fn well_formed(&self) -> bool {
        match self.stage {
            Stage::Settled { waits } => {
                &&& self.result is Some
                &&& waits ==> self.has_middleware && (self.result->0 is Stream || self.result->0 is RecordStream)
            },
            _ => self.result is None,
        }
    }

    /// Starts an execution.
    pub fn start(options: &ExecuteOptions) -> (r: Self)
        ensures
            r.well_formed(),
            r.stage is Waiting,
            r.has_middleware == (options.middlewares@.len() > 0),
    {
        Execution {
            has_middleware: options.middlewares.len() > 0,
            stage: Stage::Waiting,
            result: None,
        }
    }

    /// Takes the parsed input. An accepted input is given back for the handler;
    /// a refused one ends the execution with a validation error.
    pub fn accept(&mut self, parsed: Result<(Value, Value), InputError>) -> (r: Option<
        (Value, Value),
    >)
        requires
            old(self).well_formed(),
            old(self).stage is Waiting,
        ensures
            final(self).well_formed(),
            final(self).has_middleware == old(self).has_middleware,
            match parsed {
                Ok(input) => r == Some(input) && final(self).stage is Running,
                Err(error) => {
                    &&& r is None
                    &&& final(self).stage == (Stage::Settled { waits: false })
                    &&& final(self).result matches Some(
                        InternalResult::Error {
                            code,
                            message,
                            retryable,
                            field_errors,
                            cta,
                            exit_code,
                        },
                    )
                    &&& code@ == "VALIDATION_ERROR"@
                    &&& message == error.message
                    &&& retryable is None
                    &&& field_errors == error.field_errors
                    &&& cta is None
                    &&& exit_code is None
                },
            },
    {
        match parsed {
            Ok(input) => {
                self.stage = Stage::Running;
                Some(input)
            },
            Err(error) => {
                self.result = Some(
                    InternalResult::Error {
                        code: "VALIDATION_ERROR".to_string(),
                        message: error.message,
                        retryable: None,
                        field_errors: error.field_errors,
                        cta: None,
                        exit_code: None,
                    },
                );
                self.stage = Stage::Settled { waits: false };
                None
            },
        }
    }

    /// Takes the answer of the handler, and says whether the command has to
    /// stay alive until its stream is consumed: so that what middleware does
    /// behind the command happens behind the stream.
    pub fn answer(&mut self, answer: CommandResult) -> (r: bool)
        requires
            old(self).well_formed(),
            old(self).stage is Running,
        ensures
            final(self).well_formed(),
            final(self).has_middleware == old(self).has_middleware,
            final(self).result == Some(settled(answer)),
            final(self).stage == (Stage::Settled { waits: r }),
            r == (old(self).has_middleware && streams(answer)),
    {
        let is_stream = match &answer {
            CommandResult::Stream => true,
            CommandResult::RecordStream => true,
            _ => false,
        };
        let waits = self.has_middleware && is_stream;
        self.result = Some(settle(answer));
        self.stage = Stage::Settled { waits };
        waits
    }

    /// Ends an execution: gives its result, or a success without data where
    /// middleware never called the command.
    pub fn finish(self) -> (r: InternalResult)
        ensures
            match self.result {
                Some(result) => r == result,
                None => is_empty_success(r),
            },
    {
        match self.result {
            Some(result) => result,
            None => InternalResult::Success { data: Value::Null, cta: None, exit_code: None },
        }
    }
}

/// Builds the context of a handler from what the execution was started with and
/// the accepted input. `floats` holds, for each environment field of the
/// command, the number that its variable writes in floating point, if it writes
/// one.
pub fn build_context(
    command: &CommandDef,
    options: ExecuteOptions,
    args: Value,
    parsed_options: Value,
    vars: Value,
    floats: &Vec<Option<u64>>,
) -> (r: CommandContext)
    requires
        floats@.len() == command.env_fields@.len(),
    ensures
        r.env@ == Json::Object(
            env_object(command.env_fields@, text_table(options.env_source@), floats@),
        ),
        r == (CommandContext {
            agent: options.agent,
            args,
            env: r.env,
            display_name: options.display_name,
            globals: options.globals,
            options: parsed_options,
            request: options.request,
            format: options.format,
            format_explicit: options.format_explicit,
            name: options.name,
            vars,
            version: options.version,
        }),
{
    let env = parse_env_fields(&command.env_fields, &options.env_source, floats);
    CommandContext {
        agent: options.agent,
        args,
        env,
        display_name: options.display_name,
        globals: options.globals,
        options: parsed_options,
        request: options.request,
        format: options.format,
        format_explicit: options.format_explicit,
        name: options.name,
        vars,
        version: options.version,
    }
}

/// The answer that a typed result becomes. `data` is the typed output turned
/// into a value, or the reason why it could not be.
pub fn typed_answer(result: TypedResult<Result<Value, String>>) -> (r: CommandResult)
    ensures
        match result {
            TypedResult::Success { data: Ok(value), cta, exit_code } => r == (
            CommandResult::Success { data: value, cta, exit_code }),
            TypedResult::Success { data: Err(error), .. } => {
                &&& r matches CommandResult::Error { code, message, retryable, exit_code, cta: c }
                &&& code@ == "SERIALIZATION_ERROR"@
                &&& message == error
                &&& !retryable
                &&& exit_code == Some(1i32)
                &&& c is None
            },
            TypedResult::Error { code, message, retryable, exit_code, cta } => r == (
            CommandResult::Error { code, message, retryable, exit_code, cta }),
        },
{
    match result {
        TypedResult::Success { data, cta, exit_code } => match data {
            Ok(value) => CommandResult::Success { data: value, cta, exit_code },
            Err(error) => CommandResult::Error {
                code: "SERIALIZATION_ERROR".to_string(),
                message: error,
                retryable: false,
                exit_code: Some(1),
                cta: None,
            },
        },
        TypedResult::Error { code, message, retryable, exit_code, cta } => CommandResult::Error {
            code,
            message,
            retryable,
            exit_code,
            cta,
        },
    }
}

/// The answer of a typed handler whose input does not fit its type. `kind` says
/// which input it is.
pub fn typed_input_error(kind: &str, error: &str) -> (r: CommandResult)
    ensures
        r matches CommandResult::Error { code, message, retryable, exit_code, cta } && code@
            == "VALIDATION_ERROR"@ && message@ == "Failed to parse typed "@ + kind@ + ": "@
            + error@ && !retryable && exit_code == Some(1i32) && cta is None,
{
    let mut message = cat3("Failed to parse typed ", kind, ": ");
    message.append(error);
    CommandResult::Error {
        code: "VALIDATION_ERROR".to_string(),
        message,
        retryable: false,
        exit_code: Some(1),
        cta: None,
    }
}

// ---------------------------------------------------------------------------
// Laws
// ---------------------------------------------------------------------------

/// What a handler answers is the result: the data, the suggestions and the exit code of
/// a success, and the code, the message, the suggestions and the exit code of a
/// failure. A failure is marked as one to retry exactly where retrying may succeed.
pub proof fn law_answers_become_results(answer: CommandResult)
    ensures
        match answer {
            CommandResult::Success { data, cta, exit_code } => {
                &&& settled(answer) is Success
                &&& settled(answer)->Success_data == data
                &&& settled(answer)->Success_cta == cta
                &&& settled(answer)->Success_exit_code == exit_code
            },
            CommandResult::Error { code, message, retryable, exit_code, cta } => {
                &&& settled(answer) is Error
                &&& settled(answer)->code == code
                &&& settled(answer)->message == message
                &&& settled(answer)->retryable == Some(true) <==> retryable
                &&& settled(answer)->retryable is None <==> !retryable
                &&& settled(answer)->field_errors is None
                &&& settled(answer)->Error_cta == cta
                &&& settled(answer)->Error_exit_code == exit_code
            },
            CommandResult::Stream => settled(answer) is Stream,
            CommandResult::RecordStream => settled(answer) is RecordStream,
        },
        streams(answer) <==> settled(answer) is Stream || settled(answer) is RecordStream,
{
}

/// An execution without an answer succeeded with nothing: no data, no suggestion and no
/// exit code.
pub proof fn law_nothing_answered_is_nothing(r: InternalResult)
    requires
        is_empty_success(r),
    ensures
        r is Success,
        r->Success_data@ is Null,
        r->Success_cta is None,
        r->Success_exit_code is None,
{
}

} // verus!
