//! What a fetch gateway answers.

use vstd::prelude::*;
use crate::text::{cat, opt_text, trim_end_char, trim_trailing};
use crate::value::{
    field, lemma_collected_found, lemma_collected_push, lemma_nothing_collected, lemma_object_view,
    natural, new_object, object, put, Json, Number, Value,
};

verus! {

/// The answer of a fetch handler.
#[derive(Debug)]
pub struct FetchOutput {
    /// Whether the request succeeded.
    pub ok: bool,
    /// HTTP status.
    pub status: u16,
    /// The response body.
    pub data: Value,
}

/// The value that is rendered for an answer.
pub open spec fn fetch_output(output: FetchOutput) -> Json {
    if output.ok {
        output.data@
    } else {
        object(
            Seq::empty().push(("ok"@, Json::Bool(false))).push(("status"@, natural(output.status as nat))).push(("error"@, output.data@)),
        )
    }
}

/// Formats a [`FetchOutput`] into a JSON value for rendering.
pub fn format_fetch_output(output: &FetchOutput) -> (r: Value)
    ensures
        r@ == fetch_output(*output),
{
    broadcast use {lemma_collected_push, lemma_object_view};

    if output.ok {
        return output.data.copy();
    }
    let mut fields = new_object();
    put(&mut fields, "ok", Value::Bool(false));
    put(&mut fields, "status", Value::Number(Number::PosInt(output.status as u64)));
    put(&mut fields, "error", output.data.copy());
    Value::Object(fields)
}

/// The path of a request behind a base path: slashes at the end of the base
/// path are dropped.
pub open spec fn behind_base(base: Option<Seq<char>>, path: Seq<char>) -> Seq<char> {
    match base {
        Some(b) => trim_end_char(b, '/') + path,
        None => path,
    }
}

/// Puts the base path before the path of a request.
pub fn request_path(base_path: &Option<String>, path: &str) -> (r: String)
    ensures
        r@ == behind_base(opt_text(*base_path), path@),
{
    match base_path {
        Some(base) => cat(trim_trailing(base.as_str(), '/').as_str(), path),
        None => path.to_string(),
    }
}

/// What a gateway answers is shown as it is where it is a success; otherwise it stands
/// under `error`, beside the status and the mark of a failure.
pub proof fn law_answers_of_gateways(output: FetchOutput)
    ensures
        output.ok ==> fetch_output(output) == output.data@,
        !output.ok ==> {
            &&& field(fetch_output(output), "ok"@) == Some(Json::Bool(false))
            &&& field(fetch_output(output), "status"@) == Some(
                Json::Number(Number::PosInt(output.status as u64)),
            )
            &&& field(fetch_output(output), "error"@) == Some(output.data@)
        },
{
    broadcast use {lemma_collected_found, lemma_nothing_collected};

    reveal_strlit("ok");
    reveal_strlit("status");
    reveal_strlit("error");
    assert("ok"@.len() == 2);
    assert("status"@.len() == 6);
    assert("error"@.len() == 5);
}

/// The path of a request is the base path, without slashes at its end, and the path
/// behind it.
pub proof fn law_paths_follow_the_base(base: Seq<char>, path: Seq<char>)
    requires
        base.len() == 0 || base.last() != '/',
    ensures
        behind_base(None, path) == path,
        behind_base(Some(base), path) == base + path,
        behind_base(Some(base.push('/')), path) == base + path,
{
    assert(base.push('/').drop_last() =~= base);
    reveal_with_fuel(trim_end_char, 2);
}

} // verus!
