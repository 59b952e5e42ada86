//! HTTP headers, held by the `http` crate's map.

use vstd::prelude::*;
use vstd::utf8::encode_utf8;
use crate::agent_plugin::names::header_name;
use crate::table::text_table;
use crate::text::lowered;

verus! {

/// `http::HeaderMap`, which Verus sees nothing inside of.
#[verifier::external_type_specification]
#[verifier::external_body]
#[verifier::reject_recursive_types(T)]
pub struct ExHeaderMap<T>(http::HeaderMap<T>);

/// `http::HeaderValue`, which Verus sees nothing inside of.
#[verifier::external_type_specification]
#[verifier::external_body]
pub struct ExHeaderValue(http::HeaderValue);

/// What a map of headers holds: the values of each name, as bytes, in the order in
/// which they were added. Names are in lower case.
pub uninterp spec fn header_contents(headers: http::HeaderMap<http::HeaderValue>) -> Map<
    Seq<char>,
    Seq<Seq<u8>>,
>;

/// Whether the `http` crate takes a text as the name of a header.
pub open spec fn http_name(s: Seq<char>) -> bool {
    header_name(s) && s.len() <= 65535
}

/// Whether the `http` crate takes a text as the value of a header.
pub open spec fn http_value(s: Seq<char>) -> bool {
    forall|i: int|
        0 <= i < s.len() ==> #[trigger] s[i] == '\t' || (s[i] as int >= 32 && s[i] as int != 127)
}

/// `http::HeaderName::from_bytes`: it takes a text of up to 65535 token characters,
/// and at least one.
#[verifier::external_body]
pub(crate) fn is_http_name(name: &str) -> (r: bool)
    ensures
        r == http_name(name@),
{
    http::HeaderName::from_bytes(name.as_bytes()).is_ok()
}

/// `http::HeaderValue::from_str`: it takes a text without control characters other
/// than the tabulator.
#[verifier::external_body]
pub(crate) fn is_http_value(value: &str) -> (r: bool)
    ensures
        r == http_value(value@),
{
    http::HeaderValue::from_str(value).is_ok()
}

/// `http::HeaderMap::new`: the map is empty.
#[verifier::external_body]
pub(crate) fn no_headers() -> (r: http::HeaderMap<http::HeaderValue>)
    ensures
        header_contents(r).dom() == Set::<Seq<char>>::empty(),
{
    http::HeaderMap::new()
}

/// `http::HeaderMap::try_insert`: the value takes the place of all values of the
/// name, which is held in lower case. It fails only where the map is at its limit,
/// and never below 6553 names.
#[verifier::external_body]
pub(crate) fn insert_header(
    headers: &mut http::HeaderMap<http::HeaderValue>,
    name: &str,
    value: &str,
) -> (r: bool)
    requires
        http_name(name@),
        http_value(value@),
    ensures
        r ==> header_contents(*final(headers)) == header_contents(*old(headers)).insert(
            lowered(name@),
            seq![encode_utf8(value@)],
        ),
        header_contents(*old(headers)).dom().len() < 6553 ==> r,
{
    match (http::HeaderName::from_bytes(name.as_bytes()), http::HeaderValue::from_str(value)) {
        (Ok(name), Ok(value)) => headers.try_insert(name, value).is_ok(),
        _ => false,
    }
}

/// `http::HeaderMap::remove`: all values of the name leave the map. The name is
/// looked for in lower case.
#[verifier::external_body]
pub(crate) fn remove_header(headers: &mut http::HeaderMap<http::HeaderValue>, name: &str)
    requires
        http_name(name@),
    ensures
        header_contents(*final(headers)) == header_contents(*old(headers)).remove(lowered(name@)),
{
    headers.remove(name);
}

/// What is wrong with configured headers.
#[derive(Debug, Clone, Copy, PartialEq, Eq, Structural)]
pub enum HeaderFault {
    /// A name is none.
    Name,
    /// A value is none.
    Value,
    /// There are more headers than the map can hold.
    TooMany,
}

/// The text of a fault.
pub open spec fn header_fault_text(fault: HeaderFault) -> Seq<char> {
    match fault {
        HeaderFault::Name => "invalid HTTP header name"@,
        HeaderFault::Value => "failed to parse header value"@,
        HeaderFault::TooMany => "max size reached"@,
    }
}

impl HeaderFault {
    /// Gives the text of the fault.
    pub fn message(&self) -> (r: String)
        ensures
            r@ == header_fault_text(*self),
    {
        match self {
            HeaderFault::Name => "invalid HTTP header name".to_string(),
            HeaderFault::Value => "failed to parse header value".to_string(),
            HeaderFault::TooMany => "max size reached".to_string(),
        }
    }
}

/// The first fault of configured headers.
pub open spec fn headers_fault(all: Seq<(Seq<char>, Seq<char>)>, from: nat) -> Option<HeaderFault>
    decreases all.len() - from,
{
    if from >= all.len() {
        None
    } else if !http_name(all[from as int].0) {
        Some(HeaderFault::Name)
    } else if !http_value(all[from as int].1) {
        Some(HeaderFault::Value)
    } else {
        headers_fault(all, from + 1)
    }
}

/// What a map holds after configured headers were put in, one after the other.
pub open spec fn configured_contents(all: Seq<(Seq<char>, Seq<char>)>) -> Map<
    Seq<char>,
    Seq<Seq<u8>>,
>
    decreases all.len(),
{
    if all.len() == 0 {
        Map::empty()
    } else {
        configured_contents(all.drop_last()).insert(
            lowered(all.last().0),
            seq![encode_utf8(all.last().1)],
        )
    }
}

/// As many names are held as were put in, at most.
proof fn lemma_contents_len(all: Seq<(Seq<char>, Seq<char>)>)
    ensures
        configured_contents(all).dom().finite(),
        configured_contents(all).dom().len() <= all.len(),
    decreases all.len(),
{
    if all.len() > 0 {
        lemma_contents_len(all.drop_last());
        let m = configured_contents(all.drop_last());
        let key = lowered(all.last().0);
        assert(m.insert(key, seq![encode_utf8(all.last().1)]).dom() =~= m.dom().insert(key));
    }
}

/// Makes a map of configured headers.
pub fn configured_headers(configured: &Vec<(String, String)>) -> (r: Result<
    http::HeaderMap<http::HeaderValue>,
    HeaderFault,
>)
    ensures
        match r {
            Ok(headers) => headers_fault(text_table(configured@), 0) is None
                && header_contents(headers) == configured_contents(text_table(configured@)),
            Err(HeaderFault::TooMany) => configured@.len() > 6553,
            Err(fault) => headers_fault(text_table(configured@), 0) == Some(fault),
        },
{
    let ghost all = text_table(configured@);
    let mut headers = no_headers();
    let mut i: usize = 0;
    assert(all.take(0) =~= Seq::empty());
    assert(header_contents(headers) =~= Map::empty());
    while i < configured.len()
        invariant
            i <= configured@.len(),
            all == text_table(configured@),
            headers_fault(all, i as nat) == headers_fault(all, 0),
            header_contents(headers) == configured_contents(all.take(i as int)),
        decreases configured.len() - i,
    {
        assert(all[i as int] == (configured@[i as int].0@, configured@[i as int].1@));
        assert(all.take(i + 1).drop_last() =~= all.take(i as int));
        proof {
            lemma_contents_len(all.take(i as int));
        }
        if !is_http_name(configured[i].0.as_str()) {
            return Err(HeaderFault::Name);
        }
        if !is_http_value(configured[i].1.as_str()) {
            return Err(HeaderFault::Value);
        }
        if !insert_header(&mut headers, configured[i].0.as_str(), configured[i].1.as_str()) {
            return Err(HeaderFault::TooMany);
        }
        i += 1;
    }
    assert(all.take(all.len() as int) =~= all);
    Ok(headers)
}

/// Takes out the headers that the client sets itself.
pub fn client_safe_headers(headers: http::HeaderMap<http::HeaderValue>) -> (r: http::HeaderMap<
    http::HeaderValue,
>)
    ensures
        header_contents(r) == header_contents(headers).remove("accept"@).remove("content-type"@),
{
    proof {
        reveal_strlit("accept");
        reveal_strlit("content-type");
        assert(lowered("accept"@) =~= "accept"@);
        assert(lowered("content-type"@) =~= "content-type"@);
    }
    let mut kept = headers;
    remove_header(&mut kept, "accept");
    remove_header(&mut kept, "content-type");
    kept
}

/// Headers are sound exactly where every name and value is.
pub proof fn law_header_faults_are_found(all: Seq<(Seq<char>, Seq<char>)>, from: nat)
    ensures
        headers_fault(all, from) is None <==> forall|i: int|
            from <= i < all.len() ==> http_name((#[trigger] all[i]).0) && http_value(all[i].1),
        headers_fault(all, from) != Some(HeaderFault::TooMany),
    decreases all.len() - from,
{
    if from < all.len() && http_name(all[from as int].0) && http_value(all[from as int].1) {
        law_header_faults_are_found(all, from + 1);
    }
}

/// A header has the value that it was given last, under its name in lowercase.
pub proof fn law_last_value_is_configured(
    all: Seq<(Seq<char>, Seq<char>)>,
    name: Seq<char>,
    value: Seq<char>,
    other: Seq<char>,
)
    ensures
        ({
            let before = configured_contents(all);
            let after = configured_contents(all.push((name, value)));
            &&& after.contains_key(lowered(name)) && after[lowered(name)] == seq![
                encode_utf8(value),
            ]
            &&& other != lowered(name) ==> after.contains_key(other) == before.contains_key(other)
            &&& other != lowered(name) && before.contains_key(other) ==> after[other]
                == before[other]
        }),
{
    assert(all.push((name, value)).drop_last() =~= all);
}

} // verus!
