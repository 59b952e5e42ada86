//! URLs, taken apart by the `url` crate.

use vstd::prelude::*;
use url::{Host, Url};
use crate::address::UrlHost::{Domain, Ipv4, Ipv6};
use crate::text::{lowered, opt_text, same, same_ignoring_case};

verus! {

/// The host of a URL.
#[derive(Debug, Clone)]
pub enum UrlHost {
    /// A name.
    Domain(String),
    /// An IPv4 address, most significant byte first.
    Ipv4(u32),
    /// An IPv6 address, most significant byte first.
    Ipv6(u128),
}

/// The parts of a URL.
#[derive(Debug, Clone)]
pub struct UrlParts {
    /// The whole URL in its normal form.
    pub text: String,
    /// The scheme in lower case, without its colon.
    pub scheme: String,
    /// Whether no other URL can be resolved against this one.
    pub cannot_be_a_base: bool,
    /// The user name, empty where there is none.
    pub username: String,
    /// The password.
    pub password: Option<String>,
    /// The fragment.
    pub fragment: Option<String>,
    /// The host.
    pub host: Option<UrlHost>,
    /// The host as it stands in the URL.
    pub host_text: Option<String>,
    /// The port, or the one that is known for the scheme.
    pub port: Option<u16>,
}

/// What a [`UrlHost`] means.
pub enum HostModel {
    /// A name.
    Domain(Seq<char>),
    /// An IPv4 address.
    Ipv4(u32),
    /// An IPv6 address.
    Ipv6(u128),
}

/// What [`UrlParts`] mean.
pub struct UrlModel {
    /// The whole URL.
    pub text: Seq<char>,
    /// The scheme.
    pub scheme: Seq<char>,
    /// Whether no other URL can be resolved against this one.
    pub cannot_be_a_base: bool,
    /// The user name.
    pub username: Seq<char>,
    /// The password.
    pub password: Option<Seq<char>>,
    /// The fragment.
    pub fragment: Option<Seq<char>>,
    /// The host.
    pub host: Option<HostModel>,
    /// The host as it stands in the URL.
    pub host_text: Option<Seq<char>>,
    /// The port.
    pub port: Option<u16>,
}

impl View for UrlHost {
    type V = HostModel;

    open spec fn view(&self) -> HostModel {
        match *self {
            UrlHost::Domain(name) => HostModel::Domain(name@),
            UrlHost::Ipv4(n) => HostModel::Ipv4(n),
            UrlHost::Ipv6(n) => HostModel::Ipv6(n),
        }
    }
}

impl View for UrlParts {
    type V = UrlModel;

    open spec fn view(&self) -> UrlModel {
        UrlModel {
            text: self.text@,
            scheme: self.scheme@,
            cannot_be_a_base: self.cannot_be_a_base,
            username: self.username@,
            password: opt_text(self.password),
            fragment: opt_text(self.fragment),
            host: match self.host {
                Some(host) => Some(host@),
                None => None,
            },
            host_text: opt_text(self.host_text),
            port: self.port,
        }
    }
}

/// What an attempt to take a URL apart means: its parts, or the text of the error.
pub open spec fn url_result(r: Result<UrlParts, String>) -> Result<UrlModel, Seq<char>> {
    match r {
        Ok(parts) => Ok(parts@),
        Err(message) => Err(message@),
    }
}

/// The parts of a URL, or the text of the error that says why it is none.
pub uninterp spec fn parsed_url(raw: Seq<char>) -> Result<UrlModel, Seq<char>>;

/// The parts of the URL that a reference leads to from a base, or the text of the
/// error that says why it leads nowhere.
pub uninterp spec fn joined_url(base: Seq<char>, reference: Seq<char>) -> Result<
    UrlModel,
    Seq<char>,
>;

/// `url::Url::parse`, with the URL's parts as its own methods give them. Only that
/// the result depends on the text alone is claimed.
#[verifier::external_body]
fn parse_text(raw: &str) -> (r: Result<UrlParts, String>)
    ensures
        url_result(r) == parsed_url(raw@),
{
    let url = Url::parse(raw).map_err(|e| e.to_string())?;
    Ok(UrlParts {
        text: url.to_string(), scheme: url.scheme().to_string(),
        cannot_be_a_base: url.cannot_be_a_base(), username: url.username().to_string(),
        password: url.password().map(Into::into), fragment: url.fragment().map(Into::into),
        host: url.host().map(|host| match host {
            Host::Domain(name) => Domain(name.to_string()),
            Host::Ipv4(address) => Ipv4(address.into()),
            Host::Ipv6(address) => Ipv6(address.into())
        }),
        host_text: url.host_str().map(Into::into), port: url.port_or_known_default()
    })
}

/// `url::Url::join`, on a base that `url::Url::parse` reads, with the URL's parts
/// as its own methods give them. Only that the result depends on the two texts
/// alone is claimed.
#[verifier::external_body]
fn join_texts(base: &str, reference: &str) -> (r: Result<UrlParts, String>)
    ensures
        url_result(r) == joined_url(base@, reference@),
{
    let url = Url::parse(base).and_then(|base| base.join(reference)).map_err(|e| e.to_string())?;
    Ok(UrlParts {
        text: url.to_string(), scheme: url.scheme().to_string(),
        cannot_be_a_base: url.cannot_be_a_base(), username: url.username().to_string(),
        password: url.password().map(Into::into), fragment: url.fragment().map(Into::into),
        host: url.host().map(|host| match host {
            Host::Domain(name) => Domain(name.to_string()),
            Host::Ipv4(address) => Ipv4(address.into()),
            Host::Ipv6(address) => Ipv6(address.into())
        }),
        host_text: url.host_str().map(Into::into), port: url.port_or_known_default()
    })
}

/// Takes a URL apart.
pub fn parse_url(raw: &str) -> (r: Result<UrlParts, String>)
    ensures
        url_result(r) == parsed_url(raw@),
{
    parse_text(raw)
}

/// Resolves a reference against a URL.
pub fn join_url(base: &UrlParts, reference: &str) -> (r: Result<UrlParts, String>)
    ensures
        url_result(r) == joined_url(base@.text, reference@),
{
    join_texts(base.text.as_str(), reference)
}

/// Whether an IPv4 address is that of the machine itself: 127.0.0.0/8.
pub open spec fn loopback_ipv4(n: u32) -> bool {
    n / 0x100_0000 == 127
}

/// Whether a scheme is HTTP or HTTPS.
pub open spec fn web_scheme(scheme: Seq<char>) -> bool {
    scheme == "http"@ || scheme == "https"@
}

/// Whether a URL carries a user name or a password.
pub open spec fn has_user(url: UrlModel) -> bool {
    url.username.len() != 0 || url.password is Some
}

/// Whether two URLs have one scheme, one host and one port.
pub open spec fn one_origin(a: UrlModel, b: UrlModel) -> bool {
    a.scheme == b.scheme && a.host_text == b.host_text && a.port == b.port
}

fn same_opt(a: &Option<String>, b: &Option<String>) -> (r: bool)
    ensures
        r == (opt_text(*a) == opt_text(*b)),
{
    match (a, b) {
        (Some(x), Some(y)) => same(x.as_str(), y.as_str()),
        (None, None) => true,
        _ => false,
    }
}

fn same_port(a: Option<u16>, b: Option<u16>) -> (r: bool)
    ensures
        r == (a == b),
{
    match (a, b) {
        (Some(x), Some(y)) => x == y,
        (None, None) => true,
        _ => false,
    }
}

impl UrlParts {
    /// Whether the scheme is HTTP or HTTPS.
    pub fn is_web(&self) -> (r: bool)
        ensures
            r == web_scheme(self@.scheme),
    {
        same(self.scheme.as_str(), "http") || same(self.scheme.as_str(), "https")
    }

    /// Whether the URL carries a user name or a password.
    pub fn has_user(&self) -> (r: bool)
        ensures
            r == has_user(self@),
    {
        proof {
            reveal_strlit("");
        }
        let empty = same(self.username.as_str(), "");
        assert(empty == (self.username@.len() == 0)) by {
            if self.username@.len() == 0 {
                assert(self.username@ =~= ""@);
            }
        }
        !empty || self.password.is_some()
    }
}

/// Whether two URLs have one origin.
pub fn same_origin(configured: &UrlParts, endpoint: &UrlParts) -> (r: bool)
    ensures
        r == one_origin(configured@, endpoint@),
{
    same(configured.scheme.as_str(), endpoint.scheme.as_str()) && same_opt(
        &configured.host_text,
        &endpoint.host_text,
    ) && same_port(configured.port, endpoint.port)
}

/// Whether a host is the machine itself: `localhost` in any case, or a loopback
/// address.
pub open spec fn loopback(url: UrlModel) -> bool {
    match url.host {
        Some(HostModel::Domain(name)) => lowered(name) == lowered("localhost"@),
        Some(HostModel::Ipv4(n)) => loopback_ipv4(n),
        Some(HostModel::Ipv6(n)) => n == 1,
        None => false,
    }
}

/// Whether the host of a URL is the machine itself.
pub fn is_loopback(url: &UrlParts) -> (r: bool)
    ensures
        r == loopback(url@),
{
    match &url.host {
        Some(UrlHost::Domain(name)) => same_ignoring_case(name.as_str(), "localhost"),
        Some(UrlHost::Ipv4(n)) => *n / 0x100_0000 == 127,
        Some(UrlHost::Ipv6(n)) => *n == 1,
        None => false,
    }
}

/// An address is on this machine exactly where its host is the local one by name, in any
/// casing, or by number.
pub proof fn law_loopback_is_this_machine(url: UrlModel, n: u32)
    ensures
        url.host is None ==> !loopback(url),
        url.host == Some(HostModel::Ipv4(n)) ==> (loopback(url) <==> 0x7F00_0000 <= n <= 0x7FFF_FFFF),
        url.host == Some(HostModel::Ipv6(1)) ==> loopback(url),
        url.host == Some(HostModel::Ipv6(0)) ==> !loopback(url),
        url.host == Some(HostModel::Domain("localhost"@)) ==> loopback(url),
        url.host matches Some(HostModel::Domain(name)) ==> (loopback(url) ==> name.len()
            == "localhost"@.len()),
{
    if let Some(HostModel::Domain(name)) = url.host {
        assert(lowered(name).len() == name.len());
        assert(lowered("localhost"@).len() == "localhost"@.len());
    }
}

/// Only the schemes of the web are ones, and an address has a user exactly where it names
/// one or has a password.
pub proof fn law_web_addresses_are_known(url: UrlModel)
    ensures
        web_scheme("http"@) && web_scheme("https"@),
        web_scheme(url.scheme) ==> url.scheme == "http"@ || url.scheme == "https"@,
        url.username.len() == 0 && url.password is None ==> !has_user(url),
        url.username.len() > 0 || url.password is Some ==> has_user(url),
{
}

} // verus!
