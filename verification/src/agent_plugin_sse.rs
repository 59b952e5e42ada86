//! Decisions of the legacy HTTP+SSE transport for Agent Plugins MCP servers.

use vstd::prelude::*;
use crate::address::{
    has_user, is_loopback, join_url, joined_url, loopback, one_origin, same_origin, url_result,
    web_scheme, UrlModel, UrlParts,
};
use crate::agent_plugin::names::{text_up_to, up_to};
use crate::headers::{client_safe_headers, header_contents, no_headers};
use crate::text::{cat, lowered, opt_text, same, same_ignoring_case, trim, trim_end, trim_start};

verus! {

/// Failure while connecting to or sending through a legacy MCP SSE server.
#[derive(Debug, Clone)]
pub enum LegacySseError {
    /// The HTTP request failed.
    Http(String),
    /// The SSE stream was invalid.
    Sse(String),
    /// The endpoint event contained an invalid URL.
    Url(String),
    /// A JSON-RPC message could not be encoded.
    Json(String),
    /// The server violated the legacy transport contract.
    Protocol(String),
}

/// What a failure means.
pub enum SseFault {
    /// The HTTP request failed.
    Http(Seq<char>),
    /// The SSE stream was invalid.
    Sse(Seq<char>),
    /// The endpoint event contained an invalid URL.
    Url(Seq<char>),
    /// A JSON-RPC message could not be encoded.
    Json(Seq<char>),
    /// The server violated the legacy transport contract.
    Protocol(Seq<char>),
}

impl View for LegacySseError {
    type V = SseFault;

    open spec fn view(&self) -> SseFault {
        match *self {
            LegacySseError::Http(text) => SseFault::Http(text@),
            LegacySseError::Sse(text) => SseFault::Sse(text@),
            LegacySseError::Url(text) => SseFault::Url(text@),
            LegacySseError::Json(text) => SseFault::Json(text@),
            LegacySseError::Protocol(text) => SseFault::Protocol(text@),
        }
    }
}

/// The text of a failure.
pub open spec fn fault_text(fault: SseFault) -> Seq<char> {
    match fault {
        SseFault::Http(text) => "legacy MCP SSE request failed: "@ + text,
        SseFault::Sse(text) => "legacy MCP SSE stream failed: "@ + text,
        SseFault::Url(text) => "legacy MCP SSE endpoint is invalid: "@ + text,
        SseFault::Json(text) => "legacy MCP SSE message is invalid: "@ + text,
        SseFault::Protocol(text) => "legacy MCP SSE protocol error: "@ + text,
    }
}

impl LegacySseError {
    /// Gives the text of the failure.
    pub fn message(&self) -> (r: String)
        ensures
            r@ == fault_text(self@),
    {
        match self {
            LegacySseError::Http(text) => cat("legacy MCP SSE request failed: ", text.as_str()),
            LegacySseError::Sse(text) => cat("legacy MCP SSE stream failed: ", text.as_str()),
            LegacySseError::Url(text) => cat(
                "legacy MCP SSE endpoint is invalid: ",
                text.as_str(),
            ),
            LegacySseError::Json(text) => cat(
                "legacy MCP SSE message is invalid: ",
                text.as_str(),
            ),
            LegacySseError::Protocol(text) => cat(
                "legacy MCP SSE protocol error: ",
                text.as_str(),
            ),
        }
    }
}

/// An event of the stream.
#[derive(Debug, Clone)]
pub struct StreamEvent {
    /// The name of the event.
    pub event: Option<String>,
    /// Its data.
    pub data: Option<String>,
}

/// What is wrong with the URL of an endpoint, given its parts or the text of the
/// error.
pub open spec fn endpoint_fault(read: Result<UrlModel, Seq<char>>) -> Option<SseFault> {
    match read {
        Err(text) => Some(SseFault::Url(text)),
        Ok(url) => if !web_scheme(url.scheme) {
            Some(SseFault::Protocol("endpoint event must contain an HTTP or HTTPS URL"@))
        } else if has_user(url) || url.fragment is Some {
            Some(
                SseFault::Protocol(
                    "endpoint event URL must not contain user information or a fragment"@,
                ),
            )
        } else if url.scheme == "http"@ && !loopback(url) {
            Some(SseFault::Protocol("non-loopback endpoint event URLs must use HTTPS"@))
        } else {
            None
        },
    }
}

/// Checks the URL of an endpoint, given its parts or the text of the error.
pub fn check_endpoint(read: Result<UrlParts, String>) -> (r: Result<UrlParts, LegacySseError>)
    ensures
        match r {
            Ok(url) => endpoint_fault(url_result(read)) is None && url_result(read) == Ok::<
                _,
                Seq<char>,
            >(url@),
            Err(fault) => endpoint_fault(url_result(read)) == Some(fault@),
        },
{
    let endpoint = match read {
        Ok(endpoint) => endpoint,
        Err(text) => {
            return Err(LegacySseError::Url(text));
        },
    };
    if !endpoint.is_web() {
        return Err(
            LegacySseError::Protocol(
                "endpoint event must contain an HTTP or HTTPS URL".to_string(),
            ),
        );
    }
    if endpoint.has_user() || endpoint.fragment.is_some() {
        return Err(
            LegacySseError::Protocol(
                "endpoint event URL must not contain user information or a fragment".to_string(),
            ),
        );
    }
    if same(endpoint.scheme.as_str(), "http") && !is_loopback(&endpoint) {
        return Err(
            LegacySseError::Protocol(
                "non-loopback endpoint event URLs must use HTTPS".to_string(),
            ),
        );
    }
    Ok(endpoint)
}

/// Resolves the endpoint that an event names against the configured URL.
pub fn resolve_endpoint(configured: &UrlParts, value: &str) -> (r: Result<
    UrlParts,
    LegacySseError,
>)
    ensures
        ({
            let read = joined_url(configured@.text, value@);
            match r {
                Ok(url) => endpoint_fault(read) is None && read == Ok::<_, Seq<char>>(url@),
                Err(fault) => endpoint_fault(read) == Some(fault@),
            }
        }),
{
    check_endpoint(join_url(configured, value))
}

/// Whether a content type is that of an event stream: letters compare in lower case,
/// and parameters do not count.
pub open spec fn event_stream_type(content_type: Seq<char>) -> bool {
    lowered(trim_end(trim_start(up_to(content_type, ';')))) == lowered("text/event-stream"@)
}

/// Checks the content type of the answer to the first request.
pub fn check_content_type(content_type: &str) -> (r: Result<(), LegacySseError>)
    ensures
        match r {
            Ok(_) => event_stream_type(content_type@),
            Err(fault) => !event_stream_type(content_type@) && fault@ == SseFault::Protocol(
                "SSE endpoint did not return text/event-stream"@,
            ),
        },
{
    let kind = trim(text_up_to(content_type, ';').as_str());
    if same_ignoring_case(kind.as_str(), "text/event-stream") {
        Ok(())
    } else {
        Err(
            LegacySseError::Protocol("SSE endpoint did not return text/event-stream".to_string()),
        )
    }
}

/// What an event means to a client that waits for the endpoint.
pub enum EndpointStep {
    /// The event is another one: the client waits on.
    Wait,
    /// The event names the endpoint.
    Found(UrlParts),
    /// The connection fails.
    Failed(LegacySseError),
}

/// Whether an event has a name.
pub open spec fn is_named(event: StreamEvent, name: Seq<char>) -> bool {
    opt_text(event.event) == Some(name)
}

/// Decides on an event, or on the end of the stream, while the client waits for the
/// endpoint.
pub fn await_endpoint(configured: &UrlParts, event: &Option<StreamEvent>) -> (r: EndpointStep)
    ensures
        match *event {
            None => r matches EndpointStep::Failed(fault) && fault@ == SseFault::Protocol(
                "SSE endpoint closed before its endpoint event"@,
            ),
            Some(e) => if !is_named(e, "endpoint"@) {
                r is Wait
            } else {
                match e.data {
                    None => r matches EndpointStep::Failed(fault) && fault@
                        == SseFault::Protocol("SSE endpoint event has no data"@),
                    Some(value) => {
                        let read = joined_url(configured@.text, value@);
                        match endpoint_fault(read) {
                            Some(found) => r matches EndpointStep::Failed(fault) && fault@
                                == found,
                            None => r matches EndpointStep::Found(url) && read == Ok::<
                                _,
                                Seq<char>,
                            >(url@),
                        }
                    },
                }
            },
        },
{
    let e = match event {
        Some(e) => e,
        None => {
            return EndpointStep::Failed(
                LegacySseError::Protocol(
                    "SSE endpoint closed before its endpoint event".to_string(),
                ),
            );
        },
    };
    let named = match &e.event {
        Some(name) => same(name.as_str(), "endpoint"),
        None => false,
    };
    if !named {
        return EndpointStep::Wait;
    }
    match &e.data {
        None => EndpointStep::Failed(
            LegacySseError::Protocol("SSE endpoint event has no data".to_string()),
        ),
        Some(value) => match resolve_endpoint(configured, value.as_str()) {
            Ok(url) => EndpointStep::Found(url),
            Err(fault) => EndpointStep::Failed(fault),
        },
    }
}

/// The data of an event that carries a message: one that is named `message` or has
/// no name.
pub open spec fn message_data(event: StreamEvent) -> Option<Seq<char>> {
    if event.event is None || is_named(event, "message"@) {
        opt_text(event.data)
    } else {
        None
    }
}

/// Gives the data of an event that carries a message.
pub fn message_of(event: &StreamEvent) -> (r: Option<String>)
    ensures
        opt_text(r) == message_data(*event),
{
    if let Some(name) = &event.event {
        if !same(name.as_str(), "message") {
            return None;
        }
    }
    match &event.data {
        Some(data) => Some(data.clone()),
        None => None,
    }
}

/// Gives the headers that are sent to the endpoint: the configured ones where it is
/// of the configured origin, and none otherwise.
pub fn endpoint_headers(
    configured: &UrlParts,
    endpoint: &UrlParts,
    headers: http::HeaderMap<http::HeaderValue>,
) -> (r: http::HeaderMap<http::HeaderValue>)
    ensures
        one_origin(configured@, endpoint@) ==> header_contents(r) == header_contents(
            headers,
        ).remove("accept"@).remove("content-type"@),
        !one_origin(configured@, endpoint@) ==> header_contents(r).dom() == Set::<
            Seq<char>,
        >::empty(),
{
    if same_origin(configured, endpoint) {
        client_safe_headers(headers)
    } else {
        no_headers()
    }
}

// ---------------------------------------------------------------------------
// Laws
// ---------------------------------------------------------------------------

/// An endpoint that is taken is reached through HTTPS, or is on the machine itself,
/// and carries neither user information nor a fragment.
pub proof fn law_endpoints_are_secure(read: Result<UrlModel, Seq<char>>)
    requires
        endpoint_fault(read) is None,
    ensures
        read matches Ok(url) && (url.scheme == "https"@ || (url.scheme == "http"@ && loopback(
            url,
        ))) && !has_user(url) && url.fragment is None,
{
}

/// Headers follow to an endpoint of the same scheme, host and port only.
pub proof fn law_headers_follow_one_origin(configured: UrlModel, endpoint: UrlModel)
    ensures
        one_origin(configured, endpoint) ==> configured.scheme == endpoint.scheme
            && configured.host_text == endpoint.host_text && configured.port == endpoint.port,
        one_origin(configured, configured),
        one_origin(configured, endpoint) == one_origin(endpoint, configured),
{
}

/// An endpoint is taken exactly where it is an address of the web without a user and
/// without a fragment that is secure or leads to this machine.
pub proof fn law_sound_endpoints_are_taken(url: UrlModel)
    ensures
        endpoint_fault(Ok(url)) is None <==> (url.scheme == "https"@ || (url.scheme == "http"@
            && loopback(url))) && url.username.len() == 0 && url.password is None
            && url.fragment is None,
        forall|text: Seq<char>| #[trigger] endpoint_fault(Err(text)) == Some(SseFault::Url(text)),
{
    reveal_strlit("http");
    reveal_strlit("https");
    assert("http"@.len() != "https"@.len());
}

/// The data of an event is a message exactly where the event has no name or that of a
/// message.
pub proof fn law_messages_are_read(event: StreamEvent)
    ensures
        event.event is None ==> message_data(event) == opt_text(event.data),
        event.event matches Some(name) ==> (name@ == "message"@ ==> message_data(event) == opt_text(
            event.data,
        )),
        event.event matches Some(name) ==> (name@ != "message"@ ==> message_data(event) is None),
{
}

/// A stream of events is one whatever the casing of its type and whatever follows it.
pub proof fn law_event_streams_are_known(parameters: Seq<char>)
    ensures
        event_stream_type("text/event-stream"@),
        event_stream_type("text/event-stream"@ + seq![';'] + parameters),
        event_stream_type("TEXT/EVENT-STREAM"@),
        !event_stream_type("text/html"@),
{
    reveal_strlit("text/event-stream");
    reveal_strlit("TEXT/EVENT-STREAM");
    reveal_strlit("text/html");
    let plain = "text/event-stream"@;
    assert(!plain.contains(';'));
    assert(!"TEXT/EVENT-STREAM"@.contains(';'));
    assert(!"text/html"@.contains(';'));
    crate::agent_plugin::names::law_part_before_a_character(plain, parameters, ';');
    crate::agent_plugin::names::law_part_before_a_character("TEXT/EVENT-STREAM"@, parameters, ';');
    crate::agent_plugin::names::law_part_before_a_character("text/html"@, parameters, ';');
    assert(lowered("TEXT/EVENT-STREAM"@) =~= lowered(plain));
    assert(lowered("text/html"@).len() != lowered(plain).len());
}

/// Each error of a stream tells what failed and why.
pub proof fn law_stream_errors_say_why(text: Seq<char>)
    ensures
        fault_text(SseFault::Http(text)) == "legacy MCP SSE request failed: "@ + text,
        fault_text(SseFault::Sse(text)) == "legacy MCP SSE stream failed: "@ + text,
        fault_text(SseFault::Url(text)) == "legacy MCP SSE endpoint is invalid: "@ + text,
        fault_text(SseFault::Json(text)) == "legacy MCP SSE message is invalid: "@ + text,
        fault_text(SseFault::Protocol(text)) == "legacy MCP SSE protocol error: "@ + text,
{
}

} // verus!
