//! Commands as HTTP routes.
//!
//! Each registered command becomes a route: `/{command}` for top-level commands
//! and `/{group}/{command}` for grouped commands. Commands that return a stream
//! are answered line by line, where each line is a JSON object with
//! `type: "chunk"` or `type: "done"`.

use vstd::prelude::*;
use crate::agent_plugin::names::{text_up_to, up_to};
use crate::cli::builder::Cli;
use crate::cli::results::{duration, duration_text};
use crate::cli::tree::CommandEntry;
use crate::cli::walk::{collect_leaves, found, leaves, LeafCommand};
use crate::command::execute::InternalResult;
use crate::command::CommandDef;
use crate::schema::{copy_fields, fields, FieldMeta};
use crate::table;
use crate::table::{inserted, keyed, lookup, mapped, text_table};
use crate::text::{
    cat3, contains_char, copy_opt, join, join_texts, opt_text, replace, replaced, same, texts,
};
use crate::value::{
    entries, field, insert, lemma_collected_found, lemma_collected_push, lemma_nothing_collected,
    lemma_object_view, new_object, object, opt_value, put, string_value, tabled, with_some, Json,
    Value,
};

verus! {

// ---------------------------------------------------------------------------
// Application state
// ---------------------------------------------------------------------------

/// Shared application state for the HTTP server.
pub struct AppState<'a> {
    /// The CLI name.
    pub name: String,
    /// The CLI version.
    pub version: Option<String>,
    /// Flattened command lookup.
    pub commands: Vec<(String, &'a CommandDef)>,
    /// Numbers of the root-level middleware.
    pub middleware: Vec<usize>,
    /// Group-level middleware keyed by group name.
    pub group_middleware: Vec<(String, Vec<usize>)>,
    /// CLI-level env fields.
    pub env_fields: Vec<FieldMeta>,
    /// Middleware vars fields.
    pub vars_fields: Vec<FieldMeta>,
}

/// What a table of commands means.
pub open spec fn routes_view(v: Seq<(String, &CommandDef)>) -> Seq<(Seq<char>, CommandDef)> {
    mapped(keyed(v), |c: &CommandDef| *c)
}

/// What a table of middleware means.
pub open spec fn layers_view(v: Seq<(String, Vec<usize>)>) -> Seq<(Seq<char>, Seq<usize>)> {
    mapped(keyed(v), |m: Vec<usize>| m@)
}

/// The names on a way from the first that is not empty.
pub open spec fn from_named(path: Seq<Seq<char>>) -> Seq<Seq<char>>
    decreases path.len(),
{
    if path.len() > 0 && path[0].len() == 0 {
        from_named(path.skip(1))
    } else {
        path
    }
}

/// The route of the command or group that names lead to: the names with slashes
/// between them. Empty names at the front have no place in it.
pub open spec fn route(path: Seq<Seq<char>>) -> Seq<char> {
    join(from_named(path), "/"@)
}

/// The routes of leaf commands.
pub open spec fn routes(all: Seq<(Seq<Seq<char>>, CommandDef)>) -> Seq<(Seq<char>, CommandDef)>
    decreases all.len(),
{
    if all.len() == 0 {
        Seq::empty()
    } else {
        inserted(routes(all.drop_last()), route(all.last().0), all.last().1)
    }
}

/// The middleware of an entry that `path` leads to, and of the groups below it.
pub open spec fn layers_of(entry: CommandEntry, path: Seq<Seq<char>>) -> Seq<
    (Seq<char>, Seq<usize>),
>
    decreases entry, 0nat,
{
    match entry {
        CommandEntry::Group { commands, middleware, .. } => if middleware@.len() > 0 {
            seq![(route(path), middleware@)] + layers(commands@, path)
        } else {
            layers(commands@, path)
        },
        _ => Seq::empty(),
    }
}

/// The middleware of the groups of one level and of those below it, behind the names
/// `prefix`.
pub open spec fn layers(commands: Seq<(String, CommandEntry)>, prefix: Seq<Seq<char>>) -> Seq<
    (Seq<char>, Seq<usize>),
>
    decreases commands, commands.len(),
{
    if commands.len() == 0 {
        Seq::empty()
    } else {
        layers(commands.drop_last(), prefix) + layers_of(
            commands.last().1,
            prefix.push(commands.last().0@),
        )
    }
}

/// The middleware by the routes of the groups.
pub open spec fn layer_table(all: Seq<(Seq<char>, Seq<usize>)>) -> Seq<(Seq<char>, Seq<usize>)>
    decreases all.len(),
{
    if all.len() == 0 {
        Seq::empty()
    } else {
        inserted(layer_table(all.drop_last()), all.last().0, all.last().1)
    }
}

/// Lists of numbers are copied.
fn copy_numbers(v: &Vec<usize>) -> (r: Vec<usize>)
    ensures
        r@ == v@,
{
    let r = v.clone();
    assert(r@ =~= v@);
    r
}

fn route_of(path: &Vec<String>) -> (r: String)
    ensures
        r@ == route(texts(path@)),
{
    let ghost all = texts(path@);
    let mut k: usize = 0;
    assert(all.skip(0) =~= all);
    while k < path.len() && path[k].as_str().is_empty()
        invariant
            k <= path@.len(),
            all == texts(path@),
            from_named(all.skip(k as int)) == from_named(all),
        decreases path.len() - k,
    {
        assert(all.skip(k as int)[0] == path@[k as int]@);
        assert(all.skip(k as int).skip(1) =~= all.skip(k + 1));
        k += 1;
    }
    if k < path.len() {
        assert(all.skip(k as int)[0] == path@[k as int]@);
    }
    let mut kept: Vec<String> = Vec::new();
    let mut i: usize = k;
    assert(texts(kept@) =~= all.subrange(k as int, k as int));
    while i < path.len()
        invariant
            k <= i <= path@.len(),
            all == texts(path@),
            texts(kept@) == all.subrange(k as int, i as int),
        decreases path.len() - i,
    {
        let ghost was = texts(kept@);
        kept.push(path[i].clone());
        assert(texts(kept@) =~= was.push(path@[i as int]@));
        assert(all.subrange(k as int, i + 1) =~= was.push(all[i as int]));
        i += 1;
    }
    assert(all.subrange(k as int, all.len() as int) =~= all.skip(k as int));
    join_texts(&kept, "/")
}

fn list_routes<'a>(found_leaves: Vec<LeafCommand<'a>>) -> (r: Vec<(String, &'a CommandDef)>)
    ensures
        routes_view(r@) == routes(found(found_leaves@)),
{
    let ghost all = found(found_leaves@);
    let mut out: Vec<(String, &'a CommandDef)> = Vec::new();
    let mut i: usize = 0;
    assert(routes_view(out@) =~= routes(all.take(0)));
    while i < found_leaves.len()
        invariant
            i <= found_leaves@.len(),
            all == found(found_leaves@),
            routes_view(out@) == routes(all.take(i as int)),
        decreases found_leaves.len() - i,
    {
        assert(all.take(i + 1).drop_last() =~= all.take(i as int));
        assert(all.take(i + 1).last() == (texts(found_leaves@[i as int].path@), *found_leaves@[
        i as int].command));
        let key = route_of(&found_leaves[i].path);
        let ghost was = keyed(out@);
        let ghost text = key@;
        let ghost new = found_leaves@[i as int].command;
        table::insert(&mut out, key, found_leaves[i].command);
        proof {
            table::lemma_inserted_mapped(was, text, new, |c: &CommandDef| *c);
        }
        i += 1;
    }
    assert(all.take(all.len() as int) =~= all);
    out
}

spec fn listed_layers(v: Seq<(String, Vec<usize>)>) -> Seq<(Seq<char>, Seq<usize>)> {
    v.map_values(|e: (String, Vec<usize>)| (e.0@, e.1@))
}

fn collect_layers(commands: &Vec<(String, CommandEntry)>, prefix: &Vec<String>) -> (r: Vec<
    (String, Vec<usize>),
>)
    ensures
        listed_layers(r@) == layers(commands@, texts(prefix@)),
    decreases *commands,
{
    let ghost base = texts(prefix@);
    let mut out: Vec<(String, Vec<usize>)> = Vec::new();
    let mut i: usize = 0;
    assert(listed_layers(out@) =~= layers(commands@.take(0), base));
    while i < commands.len()
        invariant
            i <= commands@.len(),
            base == texts(prefix@),
            listed_layers(out@) == layers(commands@.take(i as int), base),
        decreases commands.len() - i,
    {
        let ghost was = listed_layers(out@);
        assert(commands@.take(i + 1).drop_last() =~= commands@.take(i as int));
        assert(commands@.take(i + 1).last() == commands@[i as int]);
        assert(decreases_to!(*commands => commands@[i as int].1));
        proof {
            reveal_with_fuel(layers, 2);
            reveal_with_fuel(layers_of, 2);
        }
        let path = crate::cli::walk::longer_path(prefix, &commands[i].0);
        match &commands[i].1 {
            CommandEntry::Group { commands: sub, middleware, .. } => {
                let ghost key = route(texts(path@));
                if middleware.len() > 0 {
                    out.push((route_of(&path), copy_numbers(middleware)));
                    assert(listed_layers(out@) =~= was + seq![(key, middleware@)]);
                }
                let ghost own = listed_layers(out@);
                let mut inner = collect_layers(sub, &path);
                let ghost more = listed_layers(inner@);
                out.append(&mut inner);
                assert(listed_layers(out@) =~= own + more);
                assert(listed_layers(out@) =~= was + layers_of(
                    commands@[i as int].1,
                    texts(path@),
                ));
            },
            _ => {
                assert(was + Seq::<(Seq<char>, Seq<usize>)>::empty() =~= was);
            },
        }
        i += 1;
    }
    assert(commands@.take(commands@.len() as int) =~= commands@);
    out
}

fn table_layers(all: &Vec<(String, Vec<usize>)>) -> (r: Vec<(String, Vec<usize>)>)
    ensures
        layers_view(r@) == layer_table(listed_layers(all@)),
{
    let ghost want = listed_layers(all@);
    let mut out: Vec<(String, Vec<usize>)> = Vec::new();
    let mut i: usize = 0;
    assert(layers_view(out@) =~= layer_table(want.take(0)));
    while i < all.len()
        invariant
            i <= all@.len(),
            want == listed_layers(all@),
            layers_view(out@) == layer_table(want.take(i as int)),
        decreases all.len() - i,
    {
        assert(want.take(i + 1).drop_last() =~= want.take(i as int));
        assert(want.take(i + 1).last() == (all@[i as int].0@, all@[i as int].1@));
        let numbers = copy_numbers(&all[i].1);
        let ghost was = keyed(out@);
        let ghost new = numbers;
        table::insert(&mut out, all[i].0.clone(), numbers);
        proof {
            table::lemma_inserted_mapped(was, all@[i as int].0@, new, |m: Vec<usize>| m@);
        }
        i += 1;
    }
    assert(want.take(want.len() as int) =~= want);
    out
}

/// Flattens a command tree into the routes of its commands and the middleware of its
/// groups.
pub fn flatten_commands<'a>(commands: &'a Vec<(String, CommandEntry)>) -> (r: (
    Vec<(String, &'a CommandDef)>,
    Vec<(String, Vec<usize>)>,
))
    ensures
        routes_view(r.0@) == routes(leaves(commands@, Seq::empty())),
        layers_view(r.1@) == layer_table(layers(commands@, Seq::empty())),
{
    let none: Vec<String> = Vec::new();
    assert(texts(none@) =~= Seq::empty());
    let routes = list_routes(collect_leaves(commands, &none));
    let all = collect_layers(commands, &none);
    (routes, table_layers(&all))
}

/// Builds the application state from a command line.
pub fn build_app_state<'a>(cli: &'a Cli) -> (r: AppState<'a>)
    ensures
        r.name@ == cli.name@,
        opt_text(r.version) == opt_text(cli.version),
        routes_view(r.commands@) == routes(leaves(cli.commands@, Seq::empty())),
        r.middleware@ == cli.middleware@,
        layers_view(r.group_middleware@) == layer_table(layers(cli.commands@, Seq::empty())),
        fields(r.env_fields@) == fields(cli.env_fields@),
        fields(r.vars_fields@) == fields(cli.vars_fields@),
{
    let (commands, group_middleware) = flatten_commands(&cli.commands);
    AppState {
        name: cli.name.clone(),
        version: copy_opt(&cli.version),
        commands,
        middleware: copy_numbers(&cli.middleware),
        group_middleware,
        env_fields: copy_fields(&cli.env_fields),
        vars_fields: copy_fields(&cli.vars_fields),
    }
}

// ---------------------------------------------------------------------------
// Requests
// ---------------------------------------------------------------------------

/// The command path that a route means: spaces for slashes.
pub open spec fn route_path(key: Seq<char>) -> Seq<char> {
    replaced(key, "/"@, " "@)
}

fn path_of_route(key: &str) -> (r: String)
    ensures
        r@ == route_path(key@),
{
    proof {
        reveal_strlit("/");
    }
    replace(key, "/", " ")
}

/// The route of a grouped command.
pub fn group_route(group: &str, command: &str) -> (r: String)
    ensures
        r@ == group@ + "/"@ + command@,
{
    cat3(group, "/", command)
}

/// The input of a request: what the query holds, and over it what the body holds.
pub open spec fn request_input(
    query: Seq<(Seq<char>, Seq<char>)>,
    body: Seq<(Seq<char>, Json)>,
) -> Seq<(Seq<char>, Json)> {
    laid_over(
        tabled(query.map_values(|e: (Seq<char>, Seq<char>)| (e.0, Json::String(e.1)))),
        body,
    )
}

/// The table with other entries stored in it, one after the other.
pub open spec fn laid_over(base: Seq<(Seq<char>, Json)>, body: Seq<(Seq<char>, Json)>) -> Seq<
    (Seq<char>, Json),
>
    decreases body.len(),
{
    if body.len() == 0 {
        base
    } else {
        inserted(laid_over(base, body.drop_last()), body.last().0, body.last().1)
    }
}

/// Gathers the input of a request from its query and from the object that its body
/// holds, where it holds one.
pub fn merge_input(query: &Vec<(String, String)>, body: &Vec<(String, Value)>) -> (r: Vec<
    (String, Value),
>)
    ensures
        entries(r@) == request_input(text_table(query@), entries(body@)),
{
    let ghost pairs = text_table(query@).map_values(
        |e: (Seq<char>, Seq<char>)| (e.0, Json::String(e.1)),
    );
    let mut out: Vec<(String, Value)> = Vec::new();
    let mut i: usize = 0;
    assert(pairs.take(0) =~= Seq::empty());
    assert(entries(out@) =~= Seq::empty());
    while i < query.len()
        invariant
            i <= query@.len(),
            pairs == text_table(query@).map_values(
                |e: (Seq<char>, Seq<char>)| (e.0, Json::String(e.1)),
            ),
            entries(out@) == tabled(pairs.take(i as int)),
        decreases query.len() - i,
    {
        assert(pairs.take(i + 1).drop_last() =~= pairs.take(i as int));
        assert(pairs.take(i + 1).last() == (query@[i as int].0@, Json::String(
            query@[i as int].1@,
        )));
        insert(&mut out, query[i].0.clone(), string_value(query[i].1.as_str()));
        i += 1;
    }
    assert(pairs.take(pairs.len() as int) =~= pairs);
    let ghost base = tabled(pairs);
    let ghost all = entries(body@);
    let mut k: usize = 0;
    assert(all.take(0) =~= Seq::empty());
    while k < body.len()
        invariant
            k <= body@.len(),
            all == entries(body@),
            entries(out@) == laid_over(base, all.take(k as int)),
        decreases body.len() - k,
    {
        assert(all.take(k + 1).drop_last() =~= all.take(k as int));
        assert(all.take(k + 1).last() == (body@[k as int].0@, body@[k as int].1@));
        insert(&mut out, body[k].0.clone(), body[k].1.copy());
        k += 1;
    }
    assert(all.take(all.len() as int) =~= all);
    out
}

/// The middleware of a request: that of the command line, that of the first group on
/// the route, and that of the command.
pub open spec fn request_layers(
    root: Seq<usize>,
    groups: Seq<(Seq<char>, Seq<usize>)>,
    key: Seq<char>,
    own: Seq<usize>,
) -> Seq<usize> {
    let group = if key.contains('/') {
        match lookup(groups, up_to(key, '/')) {
            Some(numbers) => numbers,
            None => Seq::empty(),
        }
    } else {
        Seq::empty()
    };
    root + group + own
}

fn append_numbers(to: &mut Vec<usize>, v: &Vec<usize>)
    ensures
        final(to)@ == old(to)@ + v@,
{
    let mut more = copy_numbers(v);
    let ghost was = to@;
    to.append(&mut more);
    assert(to@ =~= was + v@);
}

fn gather_layers<'a>(state: &AppState<'a>, key: &str, command: &CommandDef) -> (r: Vec<usize>)
    ensures
        r@ == request_layers(
            state.middleware@,
            layers_view(state.group_middleware@),
            key@,
            command.middleware@,
        ),
{
    let mut out = copy_numbers(&state.middleware);
    let ghost root = out@;
    if contains_char(key, '/') {
        let group = text_up_to(key, '/');
        proof {
            table::lemma_lookup_mapped(
                keyed(state.group_middleware@),
                group@,
                |m: Vec<usize>| m@,
            );
        }
        if let Some(numbers) = table::get(&state.group_middleware, group.as_str()) {
            append_numbers(&mut out, numbers);
        } else {
            assert(root + Seq::<usize>::empty() =~= root);
        }
    } else {
        assert(root + Seq::<usize>::empty() =~= root);
    }
    append_numbers(&mut out, &command.middleware);
    out
}

/// An answer of the server.
#[derive(Debug)]
pub struct HttpReply {
    /// The status code.
    pub status: u16,
    /// The body.
    pub body: Value,
}

/// What is to be done for a request.
pub enum RequestPlan<'a> {
    /// Answer at once: the route leads to no command.
    Refuse(HttpReply),
    /// Run a command.
    Run {
        /// The command.
        command: &'a CommandDef,
        /// Its path.
        path: String,
        /// Its input.
        input_options: Vec<(String, Value)>,
        /// Numbers of the middleware to run it in.
        middlewares: Vec<usize>,
    },
}

/// The metadata of an answer.
pub open spec fn reply_meta(path: Seq<char>, millis: u64, cta: Option<Json>) -> Json {
    object(
        with_some(
            Seq::empty().push(("command"@, Json::String(path))).push(
                ("duration"@, Json::String(duration(millis))),
            ),
            "cta"@,
            cta,
        ),
    )
}

fn meta_value(path: &str, millis: u64, cta: Option<Value>) -> (r: Value)
    ensures
        r@ == reply_meta(
            path@,
            millis,
            match cta {
                Some(v) => Some(v@),
                None => None,
            },
        ),
{
    broadcast use {lemma_collected_push, lemma_object_view};

    let mut meta = new_object();
    put(&mut meta, "command", string_value(path));
    put(&mut meta, "duration", Value::String(duration_text(millis)));
    if let Some(cta) = cta {
        put(&mut meta, "cta", cta);
    }
    Value::Object(meta)
}

/// The error of an answer.
pub open spec fn reply_error(code: Seq<char>, message: Seq<char>, retryable: Option<bool>) -> Json {
    object(
        with_some(
            Seq::empty().push(("code"@, Json::String(code))).push(
                ("message"@, Json::String(message)),
            ),
            "retryable"@,
            match retryable {
                Some(b) => Some(Json::Bool(b)),
                None => None,
            },
        ),
    )
}

fn error_value(code: &str, message: &str, retryable: Option<bool>) -> (r: Value)
    ensures
        r@ == reply_error(code@, message@, retryable),
{
    broadcast use {lemma_collected_push, lemma_object_view};

    let mut error = new_object();
    put(&mut error, "code", string_value(code));
    put(&mut error, "message", string_value(message));
    if let Some(b) = retryable {
        put(&mut error, "retryable", Value::Bool(b));
    }
    Value::Object(error)
}

/// The body of an answer that reports an error.
pub open spec fn error_body(error: Json, meta: Json) -> Json {
    object(
        Seq::empty().push(("ok"@, Json::Bool(false))).push(("error"@, error)).push(("meta"@, meta)),
    )
}

fn error_body_value(error: Value, meta: Value) -> (r: Value)
    ensures
        r@ == error_body(error@, meta@),
{
    broadcast use {lemma_collected_push, lemma_object_view};

    let mut body = new_object();
    put(&mut body, "ok", Value::Bool(false));
    put(&mut body, "error", error);
    put(&mut body, "meta", meta);
    Value::Object(body)
}

/// The message on a route that leads to no command.
pub open spec fn no_command_message(key: Seq<char>, name: Seq<char>) -> Seq<char> {
    "'"@ + key + "' is not a command for '"@ + name + "'."@
}

/// Plans what is done for a request. `body` is the object that the body of the request
/// holds, and empty where it holds none; `millis` is the time since the request came.
pub fn plan_request<'a>(
    state: &AppState<'a>,
    key: &str,
    query: &Vec<(String, String)>,
    body: &Vec<(String, Value)>,
    millis: u64,
) -> (r: RequestPlan<'a>)
    ensures
        match lookup(routes_view(state.commands@), key@) {
            None => r matches RequestPlan::Refuse(reply) && reply.status == 404 && reply.body@
                == error_body(
                reply_error(
                    "COMMAND_NOT_FOUND"@,
                    no_command_message(key@, state.name@),
                    None,
                ),
                reply_meta(route_path(key@), millis, None),
            ),
            Some(def) => r matches RequestPlan::Run { command, path, input_options, middlewares }
                && *command == def && path@ == route_path(key@) && entries(input_options@)
                == request_input(text_table(query@), entries(body@)) && middlewares@
                == request_layers(
                state.middleware@,
                layers_view(state.group_middleware@),
                key@,
                def.middleware@,
            ),
        },
{
    proof {
        table::lemma_lookup_mapped(keyed(state.commands@), key@, |c: &CommandDef| *c);
    }
    let path = path_of_route(key);
    match table::get(&state.commands, key) {
        None => {
            let mut message = cat3("'", key, "' is not a command for '");
            message.append(state.name.as_str());
            message.append("'.");
            let error = error_value("COMMAND_NOT_FOUND", message.as_str(), None);
            let meta = meta_value(path.as_str(), millis, None);
            RequestPlan::Refuse(HttpReply { status: 404, body: error_body_value(error, meta) })
        },
        Some(command) => {
            let middlewares = gather_layers(state, key, command);
            RequestPlan::Run {
                command,
                path,
                input_options: merge_input(query, body),
                middlewares,
            }
        },
    }
}

// ---------------------------------------------------------------------------
// Answers
// ---------------------------------------------------------------------------

/// What a result is answered with.
pub enum HttpAnswer {
    /// A JSON document.
    Json(HttpReply),
    /// Lines, one for each value of a stream.
    Lines,
}

/// The body of an answer that reports a success.
pub open spec fn success_body(data: Json, meta: Json) -> Json {
    object(
        Seq::empty().push(("ok"@, Json::Bool(true))).push(("data"@, data)).push(("meta"@, meta)),
    )
}

/// The status code of an error.
pub open spec fn error_status(code: Seq<char>) -> u16 {
    if code == "VALIDATION_ERROR"@ {
        400
    } else {
        500
    }
}

/// Answers with the result of a command. `cta` is the JSON form of the suggestions
/// that the result carries, where it carries any.
pub fn answer_result(path: &str, millis: u64, result: InternalResult, cta: Option<Value>) -> (r:
    HttpAnswer)
    ensures
        match result {
            InternalResult::Success { data, .. } => r matches HttpAnswer::Json(reply)
                && reply.status == 200 && reply.body@ == success_body(
                data@,
                reply_meta(path@, millis, opt_value(cta)),
            ),
            InternalResult::Error { code, message, retryable, .. } => r matches HttpAnswer::Json(
                reply,
            ) && reply.status == error_status(code@) && reply.body@ == error_body(
                reply_error(code@, message@, retryable),
                reply_meta(path@, millis, opt_value(cta)),
            ),
            _ => r is Lines,
        },
{
    broadcast use {lemma_collected_push, lemma_object_view};

    match result {
        InternalResult::Success { data, .. } => {
            let meta = meta_value(path, millis, cta);
            let mut body = new_object();
            put(&mut body, "ok", Value::Bool(true));
            put(&mut body, "data", data);
            put(&mut body, "meta", meta);
            HttpAnswer::Json(HttpReply { status: 200, body: Value::Object(body) })
        },
        InternalResult::Error { code, message, retryable, .. } => {
            let status: u16 = if same(code.as_str(), "VALIDATION_ERROR") {
                400
            } else {
                500
            };
            let error = error_value(code.as_str(), message.as_str(), retryable);
            let meta = meta_value(path, millis, cta);
            HttpAnswer::Json(HttpReply { status, body: error_body_value(error, meta) })
        },
        _ => HttpAnswer::Lines,
    }
}

/// The line of a value of a stream.
pub open spec fn chunk_json(value: Json) -> Json {
    object(Seq::empty().push(("type"@, Json::String("chunk"@))).push(("data"@, value)))
}

/// The line behind the last value of a stream.
pub open spec fn done_json(path: Seq<char>) -> Json {
    object(
        Seq::empty().push(("type"@, Json::String("done"@))).push(("ok"@, Json::Bool(true))).push(
            ("meta"@, object(Seq::empty().push(("command"@, Json::String(path))))),
        ),
    )
}

/// Gives the line of a value of a stream.
pub fn chunk_line(value: Value) -> (r: Value)
    ensures
        r@ == chunk_json(value@),
{
    broadcast use {lemma_collected_push, lemma_object_view};

    let mut line = new_object();
    put(&mut line, "type", string_value("chunk"));
    put(&mut line, "data", value);
    Value::Object(line)
}

/// Gives the line behind the last value of a stream.
pub fn done_line(path: &str) -> (r: Value)
    ensures
        r@ == done_json(path@),
{
    broadcast use {lemma_collected_push, lemma_object_view};

    let mut meta = new_object();
    put(&mut meta, "command", string_value(path));
    let mut line = new_object();
    put(&mut line, "type", string_value("done"));
    put(&mut line, "ok", Value::Bool(true));
    put(&mut line, "meta", Value::Object(meta));
    Value::Object(line)
}

// ---------------------------------------------------------------------------
// Laws
// ---------------------------------------------------------------------------

/// Every leaf command has the route of the names on the way to it, and every route
/// leads to a leaf command of that name.
pub proof fn law_routes_lead_to_commands(all: Seq<(Seq<Seq<char>>, CommandDef)>, key: Seq<char>)
    ensures
        lookup(routes(all), key) is Some <==> exists|i: int|
            0 <= i < all.len() && route((#[trigger] all[i]).0) == key,
        lookup(routes(all), key) matches Some(def) ==> exists|i: int|
            0 <= i < all.len() && route((#[trigger] all[i]).0) == key && all[i].1 == def,
    decreases all.len(),
{
    if all.len() == 0 {
        table::lemma_position_from(table::keys(routes(all)), key, 0);
    } else {
        let head = all.drop_last();
        law_routes_lead_to_commands(head, key);
        table::lemma_lookup_inserted(
            routes(head),
            route(all.last().0),
            all.last().1,
            key,
        );
        if route(all.last().0) == key {
            assert(all[all.len() - 1] == all.last());
        } else {
            if lookup(routes(head), key) is Some {
                let i = choose|i: int|
                    0 <= i < head.len() && route((#[trigger] head[i]).0) == key
                        && head[i].1 == lookup(routes(head), key)->Some_0;
                assert(all[i] == head[i]);
            }
            if exists|i: int| 0 <= i < all.len() && route((#[trigger] all[i]).0) == key {
                let i = choose|i: int|
                    0 <= i < all.len() && route((#[trigger] all[i]).0) == key;
                assert(head[i] == all[i]);
            }
        }
    }
}

/// A group whose name is empty adds nothing to the routes below it.
pub proof fn law_empty_groups_add_nothing(path: Seq<Seq<char>>)
    ensures
        route(seq![Seq::<char>::empty()] + path) == route(path),
{
    let all = seq![Seq::<char>::empty()] + path;
    assert(all[0].len() == 0);
    assert(all.skip(1) =~= path);
}

/// What the body of a request holds takes the place of what its query holds.
pub proof fn law_body_wins_over_query(
    base: Seq<(Seq<char>, Json)>,
    body: Seq<(Seq<char>, Json)>,
    key: Seq<char>,
)
    ensures
        (exists|i: int| 0 <= i < body.len() && (#[trigger] body[i]).0 == key) ==> exists|i: int|
            0 <= i < body.len() && (#[trigger] body[i]).0 == key && lookup(
                laid_over(base, body),
                key,
            ) == Some(body[i].1),
        (forall|i: int| 0 <= i < body.len() ==> (#[trigger] body[i]).0 != key) ==> lookup(
            laid_over(base, body),
            key,
        ) == lookup(base, key),
    decreases body.len(),
{
    if body.len() > 0 {
        let head = body.drop_last();
        law_body_wins_over_query(base, head, key);
        table::lemma_lookup_inserted(
            laid_over(base, head),
            body.last().0,
            body.last().1,
            key,
        );
        assert(body[body.len() - 1] == body.last());
        if body.last().0 != key {
            if exists|i: int| 0 <= i < body.len() && (#[trigger] body[i]).0 == key {
                let i = choose|i: int| 0 <= i < body.len() && (#[trigger] body[i]).0 == key;
                assert(head[i].0 == key);
                let k = choose|k: int|
                    0 <= k < head.len() && (#[trigger] head[k]).0 == key && lookup(
                        laid_over(base, head),
                        key,
                    ) == Some(head[k].1);
                assert(body[k] == head[k]);
            } else {
                assert forall|i: int| 0 <= i < head.len() implies (#[trigger] head[i]).0
                    != key by {
                    assert(head[i] == body[i]);
                }
            }
        }
    }
}

/// A command gets from a request what its body holds under a key, the last entry where
/// there are several; what only its query holds, as text; and nothing else.
pub proof fn law_input_is_body_over_query(
    query: Seq<(Seq<char>, Seq<char>)>,
    body: Seq<(Seq<char>, Json)>,
    key: Seq<char>,
)
    ensures
        ({
            let held = lookup(request_input(query, body), key);
            let in_body = exists|i: int| 0 <= i < body.len() && (#[trigger] body[i]).0 == key;
            let in_query = exists|i: int| 0 <= i < query.len() && (#[trigger] query[i]).0 == key;
            &&& forall|i: int|
                0 <= i < body.len() && (#[trigger] body[i]).0 == key && (forall|j: int|
                    i < j < body.len() ==> (#[trigger] body[j]).0 != key) ==> held == Some(
                    body[i].1,
                )
            &&& !in_body ==> forall|i: int|
                0 <= i < query.len() && (#[trigger] query[i]).0 == key && (forall|j: int|
                    i < j < query.len() ==> (#[trigger] query[j]).0 != key) ==> held == Some(
                    Json::String(query[i].1),
                )
            &&& held is Some <==> in_body || in_query
        }),
{
    let pairs = query.map_values(|e: (Seq<char>, Seq<char>)| (e.0, Json::String(e.1)));
    let base = tabled(pairs);
    law_body_wins_over_query(base, body, key);
    lemma_last_of_body(base, body, key);
    crate::value::law_last_entry_is_tabled(pairs, key);
    assert forall|i: int| 0 <= i < query.len() implies #[trigger] pairs[i] == (
        query[i].0,
        Json::String(query[i].1),
    ) by {}
    let in_body = exists|i: int| 0 <= i < body.len() && (#[trigger] body[i]).0 == key;
    if !in_body {
        assert forall|i: int|
            0 <= i < query.len() && (#[trigger] query[i]).0 == key && (forall|j: int|
                i < j < query.len() ==> (#[trigger] query[j]).0 != key) implies lookup(
            request_input(query, body),
            key,
        ) == Some(Json::String(query[i].1)) by {
            assert(pairs[i].0 == key);
            assert forall|j: int| i < j < pairs.len() implies (#[trigger] pairs[j]).0 != key by {
                assert(query[j].0 != key);
            }
        }
        if exists|i: int| 0 <= i < query.len() && (#[trigger] query[i]).0 == key {
            let i = lemma_last_of(query, key);
            assert(pairs[i].0 == key);
            assert forall|j: int| i < j < pairs.len() implies (#[trigger] pairs[j]).0 != key by {
                assert(query[j].0 != key);
            }
        } else {
            assert forall|i: int| 0 <= i < pairs.len() implies (#[trigger] pairs[i]).0 != key by {
                assert(query[i].0 != key);
            }
        }
    }
}

/// Where a key occurs, it occurs a last time.
proof fn lemma_last_of(query: Seq<(Seq<char>, Seq<char>)>, key: Seq<char>) -> (i: int)
    requires
        exists|i: int| 0 <= i < query.len() && (#[trigger] query[i]).0 == key,
    ensures
        0 <= i < query.len(),
        query[i].0 == key,
        forall|j: int| i < j < query.len() ==> (#[trigger] query[j]).0 != key,
    decreases query.len(),
{
    let k = query.len() - 1;
    if query[k].0 == key {
        k
    } else {
        let i = choose|i: int| 0 <= i < query.len() && (#[trigger] query[i]).0 == key;
        let head = query.drop_last();
        assert(head[i].0 == key);
        let r = lemma_last_of(head, key);
        assert forall|j: int| r < j < query.len() implies (#[trigger] query[j]).0 != key by {
            if j < k {
                assert(head[j].0 != key);
            }
        }
        r
    }
}

proof fn lemma_last_of_body(
    base: Seq<(Seq<char>, Json)>,
    body: Seq<(Seq<char>, Json)>,
    key: Seq<char>,
)
    ensures
        forall|i: int|
            0 <= i < body.len() && (#[trigger] body[i]).0 == key && (forall|j: int|
                i < j < body.len() ==> (#[trigger] body[j]).0 != key) ==> lookup(
                laid_over(base, body),
                key,
            ) == Some(body[i].1),
    decreases body.len(),
{
    if body.len() > 0 {
        let head = body.drop_last();
        lemma_last_of_body(base, head, key);
        table::lemma_lookup_inserted(laid_over(base, head), body.last().0, body.last().1, key);
        assert(body[body.len() - 1] == body.last());
        assert forall|i: int|
            0 <= i < body.len() && (#[trigger] body[i]).0 == key && (forall|j: int|
                i < j < body.len() ==> (#[trigger] body[j]).0 != key) implies lookup(
            laid_over(base, body),
            key,
        ) == Some(body[i].1) by {
            if i < head.len() {
                assert(head[i] == body[i]);
                assert forall|j: int| i < j < head.len() implies (#[trigger] head[j]).0
                    != key by {
                    assert(body[j].0 != key);
                }
            }
        }
    }
}

/// The keys of an answer differ.
proof fn lemma_answer_keys()
    ensures
        "ok"@ != "data"@,
        "ok"@ != "meta"@,
        "ok"@ != "error"@,
        "ok"@ != "type"@,
        "data"@ != "meta"@,
        "data"@ != "error"@,
        "data"@ != "type"@,
        "meta"@ != "error"@,
        "meta"@ != "type"@,
        "error"@ != "type"@,
{
    reveal_strlit("ok");
    reveal_strlit("data");
    reveal_strlit("meta");
    reveal_strlit("error");
    reveal_strlit("type");
    assert("ok"@.len() == 2);
    assert("data"@.len() == 4);
    assert("meta"@.len() == 4);
    assert("error"@.len() == 5);
    assert("type"@.len() == 4);
    assert("data"@[0] == 'd');
    assert("meta"@[0] == 'm');
    assert("type"@[0] == 't');
}

/// The keys of metadata differ.
proof fn lemma_meta_keys()
    ensures
        "command"@ != "duration"@,
        "command"@ != "cta"@,
        "duration"@ != "cta"@,
{
    reveal_strlit("command");
    reveal_strlit("duration");
    reveal_strlit("cta");
    assert("command"@.len() == 7);
    assert("duration"@.len() == 8);
    assert("cta"@.len() == 3);
}

/// The keys of an error differ.
proof fn lemma_error_keys()
    ensures
        "code"@ != "message"@,
        "code"@ != "retryable"@,
        "message"@ != "retryable"@,
{
    reveal_strlit("code");
    reveal_strlit("message");
    reveal_strlit("retryable");
    assert("code"@.len() == 4);
    assert("message"@.len() == 7);
    assert("retryable"@.len() == 9);
}

/// What the metadata of an answer says.
pub open spec fn meta_tells(meta: Json, path: Seq<char>, millis: u64, cta: Option<Json>) -> bool {
    &&& field(meta, "command"@) == Some(Json::String(path))
    &&& field(meta, "duration"@) == Some(
        Json::String(crate::text::decimal(millis as nat) + "ms"@),
    )
    &&& field(meta, "cta"@) == cta
}

proof fn lemma_meta(path: Seq<char>, millis: u64, cta: Option<Json>)
    ensures
        meta_tells(reply_meta(path, millis, cta), path, millis, cta),
{
    broadcast use {lemma_collected_found, lemma_nothing_collected};

    lemma_meta_keys();
}

/// The answer to a success is marked as one, and holds the data and the metadata.
pub proof fn law_success_answers_hold_the_data(
    data: Json,
    path: Seq<char>,
    millis: u64,
    cta: Option<Json>,
)
    ensures
        ({
            let body = success_body(data, reply_meta(path, millis, cta));
            &&& field(body, "ok"@) == Some(Json::Bool(true))
            &&& field(body, "data"@) == Some(data)
            &&& field(body, "error"@) is None
            &&& field(body, "meta"@) matches Some(meta)
            &&& meta_tells(meta, path, millis, cta)
        }),
{
    broadcast use {lemma_collected_found, lemma_nothing_collected};

    lemma_answer_keys();
    lemma_meta(path, millis, cta);
}

/// The answer to an error is marked as one, and holds code, message, the retry mark
/// where there is one, and the metadata. Its status is that of a bad request exactly
/// where the input was refused.
pub proof fn law_error_answers_say_why(
    code: Seq<char>,
    message: Seq<char>,
    retryable: Option<bool>,
    path: Seq<char>,
    millis: u64,
    cta: Option<Json>,
)
    ensures
        ({
            let body = error_body(
                reply_error(code, message, retryable),
                reply_meta(path, millis, cta),
            );
            &&& field(body, "ok"@) == Some(Json::Bool(false))
            &&& field(body, "data"@) is None
            &&& field(body, "error"@) matches Some(error)
            &&& field(error, "code"@) == Some(Json::String(code))
            &&& field(error, "message"@) == Some(Json::String(message))
            &&& field(error, "retryable"@) == (match retryable {
                Some(b) => Some(Json::Bool(b)),
                None => None,
            })
            &&& field(body, "meta"@) matches Some(meta)
            &&& meta_tells(meta, path, millis, cta)
        }),
        error_status(code) == 400 <==> code == "VALIDATION_ERROR"@,
        error_status(code) == 500 <==> code != "VALIDATION_ERROR"@,
{
    broadcast use {lemma_collected_found, lemma_nothing_collected};

    lemma_answer_keys();
    lemma_error_keys();
    lemma_meta(path, millis, cta);
}

/// The lines of a streamed answer: one for each value, which holds it, and a last one
/// that says that it is the last and names the command.
pub proof fn law_lines_hold_values(value: Json, path: Seq<char>)
    ensures
        field(chunk_json(value), "type"@) == Some(Json::String("chunk"@)),
        field(chunk_json(value), "data"@) == Some(value),
        field(done_json(path), "type"@) == Some(Json::String("done"@)),
        field(done_json(path), "ok"@) == Some(Json::Bool(true)),
        field(done_json(path), "meta"@) matches Some(meta) && field(meta, "command"@) == Some(
            Json::String(path),
        ),
{
    broadcast use {lemma_collected_found, lemma_nothing_collected};

    lemma_answer_keys();
    lemma_meta_keys();
}

/// A request runs in the middleware of the command line first, that of the first group
/// on the route next, where there is one, and the command's own last.
pub proof fn law_layers_are_in_order(
    root: Seq<usize>,
    groups: Seq<(Seq<char>, Seq<usize>)>,
    group: Seq<char>,
    rest: Seq<char>,
    own: Seq<usize>,
)
    requires
        !group.contains('/'),
    ensures
        request_layers(root, groups, group, own) == root + own,
        request_layers(root, groups, group + "/"@ + rest, own) == root + (match lookup(
            groups,
            group,
        ) {
            Some(numbers) => numbers,
            None => Seq::empty(),
        }) + own,
{
    reveal_strlit("/");
    let key = group + "/"@ + rest;
    assert(key[group.len() as int] == '/');
    assert(key.contains('/'));
    crate::text::lemma_find_char_from(key, '/', 0);
    assert forall|j: int| 0 <= j < group.len() implies key[j] != '/' by {
        assert(key[j] == group[j]);
    }
    assert(key.take(group.len() as int) =~= group);
    assert(root + Seq::<usize>::empty() =~= root);
}

/// The layers of a level are those of its groups, in order: a group with middleware has
/// one under its route, before those below it.
pub proof fn law_groups_have_layers(
    a: Seq<(String, CommandEntry)>,
    b: Seq<(String, CommandEntry)>,
    one: (String, CommandEntry),
    prefix: Seq<Seq<char>>,
)
    ensures
        layers(a + b, prefix) == layers(a, prefix) + layers(b, prefix),
        one.1 matches CommandEntry::Group { commands, middleware, .. } ==> (middleware@.len() > 0 ==> layers(seq![one], prefix)
            == seq![(route(prefix.push(one.0@)), middleware@)] + layers(
            commands@,
            prefix.push(one.0@),
        )),
        one.1 matches CommandEntry::Group { commands, middleware, .. } ==> (middleware@.len() == 0
            ==> layers(seq![one], prefix) == layers(commands@, prefix.push(one.0@))),
        !(one.1 is Group) ==> layers(seq![one], prefix).len() == 0,
    decreases b.len(),
{
    reveal_with_fuel(layers, 2);
    assert(seq![one].drop_last() =~= Seq::empty());
    assert(layers(seq![one].drop_last(), prefix) =~= Seq::empty());
    assert(layers(seq![one], prefix) =~= layers_of(one.1, prefix.push(one.0@)));
    if b.len() == 0 {
        assert(a + b =~= a);
        assert(layers(a, prefix) + layers(b, prefix) =~= layers(a, prefix));
    } else {
        law_groups_have_layers(a, b.drop_last(), one, prefix);
        assert((a + b).drop_last() =~= a + b.drop_last());
        assert((a + b).last() == b.last());
        assert(layers(a + b, prefix) =~= layers(a, prefix) + layers(b, prefix));
    }
}

/// A route is the names of the path with slashes between them.
pub proof fn law_routes_are_paths(path: Seq<Seq<char>>)
    requires
        path.len() == 0 || path[0].len() > 0,
    ensures
        route(path) == join(path, "/"@),
{
}

} // verus!
