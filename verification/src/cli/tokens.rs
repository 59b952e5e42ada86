//! Counting output in tokens and cutting it to a window of tokens.

use vstd::prelude::*;
use crate::cli::flags::BuiltinFlags;
use crate::text::{cat, decimal, decimal_text};

verus! {

/// The tokens that the `cl100k_base` encoding gives for a text, special tokens
/// included.
pub uninterp spec fn token_ids(text: Seq<char>) -> Option<Seq<u32>>;

/// The text that tokens of the `cl100k_base` encoding stand for.
pub uninterp spec fn token_text(ids: Seq<u32>) -> Option<Seq<char>>;

/// `tiktoken_rs::CoreBPE::encode` with the encoding of
/// `tiktoken_rs::cl100k_base` and all of its special tokens allowed. Nothing is
/// given where the encoding cannot be set up or its regular expression gives
/// up. Only that the result depends on the text alone is claimed.
#[verifier::external_body]
fn encode_tokens(text: &str) -> (r: Option<Vec<u32>>)
    ensures
        match r {
            Some(ids) => token_ids(text@) == Some(ids@),
            None => token_ids(text@) is None,
        },
{
    let bpe = tiktoken_rs::cl100k_base().ok()?;
    let special = bpe.special_tokens();
    bpe.encode(text, &special).ok().map(|encoded| encoded.0)
}

/// `tiktoken_rs::CoreBPE::decode` with the encoding of
/// `tiktoken_rs::cl100k_base`. Nothing is given where the bytes behind the
/// tokens are no text. Only that the result depends on the tokens alone is
/// claimed.
#[verifier::external_body]
fn decode_tokens(ids: &Vec<u32>) -> (r: Option<String>)
    ensures
        match r {
            Some(text) => token_text(ids@) == Some(text@),
            None => token_text(ids@) is None,
        },
{
    let bpe = tiktoken_rs::cl100k_base().ok()?;
    bpe.decode(ids).ok()
}

/// The number, or zero where there is none.
pub open spec fn or_zero(n: Option<usize>) -> nat {
    match n {
        Some(x) => x as nat,
        None => 0,
    }
}

/// The lesser of two numbers.
pub open spec fn lesser(a: nat, b: nat) -> nat {
    if a <= b {
        a
    } else {
        b
    }
}

/// Where a window of at most `limit` tokens behind `offset` ends, were there
/// enough tokens.
pub open spec fn window_end(total: nat, offset: Option<usize>, limit: Option<usize>) -> nat {
    match limit {
        Some(n) => or_zero(offset) + n as nat,
        None => total,
    }
}

/// The tokens that a window shows, from the first to behind the last, and
/// nothing where it shows them all.
pub open spec fn window(total: nat, offset: Option<usize>, limit: Option<usize>) -> Option<
    (nat, nat),
> {
    let end = window_end(total, offset, limit);
    if or_zero(offset) == 0 && end >= total {
        None
    } else {
        Some((lesser(or_zero(offset), total), lesser(end, total)))
    }
}

/// Whether the end of the window is a machine number.
pub open spec fn window_fits(offset: Option<usize>, limit: Option<usize>) -> bool {
    or_zero(offset) + or_zero(limit) <= usize::MAX
}

/// Finds the tokens that a window shows.
pub fn token_window(total: usize, offset: Option<usize>, limit: Option<usize>) -> (r: Option<
    (usize, usize),
>)
    requires
        window_fits(offset, limit),
    ensures
        match r {
            Some((start, end)) => window(total as nat, offset, limit) == Some(
                (start as nat, end as nat),
            ) && start <= end <= total,
            None => window(total as nat, offset, limit) is None,
        },
{
    let from: usize = match offset {
        Some(n) => n,
        None => 0,
    };
    let end: usize = match limit {
        Some(n) => from + n,
        None => total,
    };
    if from == 0 && end >= total {
        return None;
    }
    let start: usize = if from <= total {
        from
    } else {
        total
    };
    let stop: usize = if end <= total {
        end
    } else {
        total
    };
    Some((start, stop))
}

/// The line that follows a text of which only a window is shown.
pub open spec fn marker(offset: nat, end: nat, total: nat) -> Seq<char> {
    "\n[truncated: showing tokens "@ + decimal(offset) + "\u{2013}"@ + decimal(end) + " of "@
        + decimal(total) + "]"@
}

/// The text that a window shows, with the line that follows it.
pub fn truncated_text(shown: &str, offset: usize, end: usize, total: usize) -> (r: String)
    ensures
        r@ == shown@ + marker(offset as nat, end as nat, total as nat),
{
    let mut out = cat("\n[truncated: showing tokens ", decimal_text(offset as u64).as_str());
    out.append("\u{2013}");
    out.append(decimal_text(end as u64).as_str());
    out.append(" of ");
    out.append(decimal_text(total as u64).as_str());
    out.append("]");
    cat(shown, out.as_str())
}

/// The text behind the tokens of a window, and no text where there is none.
pub open spec fn shown(ids: Seq<u32>, start: nat, end: nat) -> Seq<char> {
    match token_text(ids.subrange(start as int, end as int)) {
        Some(text) => text,
        None => Seq::empty(),
    }
}

/// The window of a text: the text it shows with the line that follows it, and
/// where the next window begins.
pub open spec fn truncated(text: Seq<char>, offset: Option<usize>, limit: Option<usize>) -> Option<
    (Seq<char>, Option<nat>),
> {
    match token_ids(text) {
        None => None,
        Some(ids) => if offset is None && limit is None {
            None
        } else {
            match window(ids.len(), offset, limit) {
                None => None,
                Some((start, end)) => Some(
                    (
                        shown(ids, start, end) + marker(or_zero(offset), end, ids.len()),
                        if end < ids.len() {
                            Some(end)
                        } else {
                            None
                        },
                    ),
                ),
            }
        },
    }
}

/// Truncates a formatted string by token window, returning the truncated text
/// (with the `[truncated: …]` marker) and the next offset for pagination, or
/// `None` when no truncation is needed.
pub fn truncate_tokens(output: &str, builtin: &BuiltinFlags) -> (r: Option<
    (String, Option<usize>),
>)
    requires
        window_fits(builtin.token_offset, builtin.token_limit),
    ensures
        match r {
            Some((text, next)) => truncated(output@, builtin.token_offset, builtin.token_limit)
                == Some(
                (
                    text@,
                    match next {
                        Some(n) => Some(n as nat),
                        None => None,
                    },
                ),
            ),
            None => truncated(output@, builtin.token_offset, builtin.token_limit) is None,
        },
{
    if builtin.token_offset.is_none() && builtin.token_limit.is_none() {
        return None;
    }
    let ids = match encode_tokens(output) {
        Some(ids) => ids,
        None => {
            return None;
        },
    };
    let total: usize = ids.len();
    match token_window(total, builtin.token_offset, builtin.token_limit) {
        None => None,
        Some((start, end)) => {
            let part = slice_ids(&ids, start, end);
            let text = match decode_tokens(&part) {
                Some(text) => text,
                None => String::new(),
            };
            let offset: usize = match builtin.token_offset {
                Some(n) => n,
                None => 0,
            };
            let next: Option<usize> = if end < total {
                Some(end)
            } else {
                None
            };
            Some((truncated_text(text.as_str(), offset, end, total), next))
        },
    }
}

/// The tokens from `start` up to `end`.
fn slice_ids(ids: &Vec<u32>, start: usize, end: usize) -> (r: Vec<u32>)
    requires
        start <= end <= ids@.len(),
    ensures
        r@ == ids@.subrange(start as int, end as int),
{
    let mut out: Vec<u32> = Vec::new();
    let mut i: usize = start;
    while i < end
        invariant
            start <= i <= end <= ids@.len(),
            out@ == ids@.subrange(start as int, i as int),
        decreases end - i,
    {
        out.push(ids[i]);
        assert(ids@.subrange(start as int, i + 1) =~= ids@.subrange(start as int, i as int).push(
            ids@[i as int],
        ));
        i += 1;
    }
    out
}

/// What is written in place of an output on which token operations are set.
pub open spec fn token_output(
    text: Seq<char>,
    count: bool,
    offset: Option<usize>,
    limit: Option<usize>,
) -> Option<Seq<char>> {
    if count {
        Some(
            decimal(
                match token_ids(text) {
                    Some(ids) => ids.len(),
                    None => 0,
                },
            ),
        )
    } else {
        match truncated(text, offset, limit) {
            Some((shown, _)) => Some(shown),
            None => None,
        }
    }
}

/// Applies token operations (count, offset, limit) to a formatted output string.
pub fn apply_token_ops(output: &str, builtin: &BuiltinFlags) -> (r: Option<String>)
    requires
        window_fits(builtin.token_offset, builtin.token_limit),
    ensures
        match r {
            Some(text) => token_output(
                output@,
                builtin.token_count,
                builtin.token_offset,
                builtin.token_limit,
            ) == Some(text@),
            None => token_output(
                output@,
                builtin.token_count,
                builtin.token_offset,
                builtin.token_limit,
            ) is None,
        },
{
    if builtin.token_count {
        let count: usize = match encode_tokens(output) {
            Some(ids) => ids.len(),
            None => 0,
        };
        return Some(decimal_text(count as u64));
    }
    match truncate_tokens(output, builtin) {
        Some((text, _)) => Some(text),
        None => None,
    }
}

/// What is written of an output: the output itself where no token operation
/// replaces it.
pub open spec fn written(
    text: Seq<char>,
    count: bool,
    offset: Option<usize>,
    limit: Option<usize>,
) -> Seq<char> {
    match token_output(text, count, offset, limit) {
        Some(replaced) => replaced,
        None => text,
    }
}

/// Gives what is to be written of an output, with token operations applied if
/// any are set.
pub fn write_with_token_ops(output: &str, builtin: &BuiltinFlags) -> (r: String)
    requires
        window_fits(builtin.token_offset, builtin.token_limit),
    ensures
        r@ == written(
            output@,
            builtin.token_count,
            builtin.token_offset,
            builtin.token_limit,
        ),
{
    match apply_token_ops(output, builtin) {
        Some(text) => text,
        None => output.to_string(),
    }
}

// ---------------------------------------------------------------------------
// Laws
// ---------------------------------------------------------------------------

/// Pages of the same size, each begun where the one before ends, show every
/// token once: a page is no longer than its limit, and the next one begins
/// exactly where it ends as long as tokens are left.
pub proof fn law_pages_tile(total: nat, offset: usize, limit: usize, next: usize)
    requires
        offset < total,
        window(total, Some(offset), Some(limit)) is Some,
    ensures
        ({
            let (start, end) = window(total, Some(offset), Some(limit))->0;
            &&& start == offset
            &&& end == lesser(offset as nat + limit as nat, total)
            &&& end == next && 0 < next < total ==> (window(total, Some(next), Some(limit)) matches Some(
                (begin, _),
            ) && begin == end)
        }),
{
}

/// A window that no token falls out of changes nothing.
pub proof fn law_whole_output_is_kept(text: Seq<char>, limit: usize)
    requires
        token_ids(text) is Some,
        limit >= token_ids(text)->0.len(),
    ensures
        written(text, false, None, Some(limit)) == text,
        written(text, false, Some(0), Some(limit)) == text,
{
}

/// With a window set, an output of more tokens than the window shows the tokens from the
/// offset on and no more than the limit; a marker behind them tells which ones they are,
/// and where the next window begins where there is more.
pub proof fn law_windows_show_their_tokens(
    text: Seq<char>,
    offset: usize,
    limit: usize,
)
    requires
        token_ids(text) is Some,
        offset <= token_ids(text)->0.len(),
        offset > 0 || limit < token_ids(text)->0.len(),
    ensures
        ({
            let ids = token_ids(text)->0;
            let end = if offset + limit <= ids.len() {
                offset + limit
            } else {
                ids.len() as int
            };
            let part = match token_text(ids.subrange(offset as int, end)) {
                Some(part) => part,
                None => Seq::empty(),
            };
            &&& truncated(text, Some(offset), Some(limit)) matches Some((shown, next))
            &&& part.is_prefix_of(shown)
            &&& shown == part + "\n[truncated: showing tokens "@ + decimal(offset as nat)
                + "\u{2013}"@ + decimal(end as nat) + " of "@ + decimal(ids.len()) + "]"@
            &&& end < ids.len() ==> next == Some(end as nat)
            &&& end == ids.len() ==> next is None
            &&& written(text, false, Some(offset), Some(limit)) == shown
        }),
{
    let ids = token_ids(text)->0;
    let end = if offset + limit <= ids.len() {
        offset + limit
    } else {
        ids.len() as int
    };
    let part = match token_text(ids.subrange(offset as int, end)) {
        Some(part) => part,
        None => Seq::empty(),
    };
    let shown = (truncated(text, Some(offset), Some(limit))->0).0;
    assert(shown =~= part + "\n[truncated: showing tokens "@ + decimal(offset as nat)
        + "\u{2013}"@ + decimal(end as nat) + " of "@ + decimal(ids.len()) + "]"@);
    assert(shown.subrange(0, part.len() as int) =~= part);
}

/// Without a window and without a count the output is written as it is, and a count
/// takes its place in any case.
pub proof fn law_counts_and_plain_output(
    text: Seq<char>,
    offset: Option<usize>,
    limit: Option<usize>,
)
    ensures
        written(text, false, None, None) == text,
        token_ids(text) matches Some(ids) ==> written(text, true, offset, limit) == decimal(
            ids.len(),
        ),
        token_ids(text) is None ==> written(text, false, offset, limit) == text,
{
}

} // verus!
