//! Where an HTTP client sends its requests.

use url::Url;
use vstd::prelude::*;
use super::config::HttpClientPlan;

verus! {

/// The serialization of the URL that `Url::parse` reads from `input`;
/// `None` where it reads no absolute URL.
pub uninterp spec fn url_parse(input: Seq<char>) -> Option<Seq<char>>;

/// The serialization that the URL with the serialization `url` has once
/// `Url::set_port` has set its port to `port`; `None` where `set_port`
/// refuses, as it does for a URL that can have no port. It is spoken of only
/// for a text that takes a port.
pub uninterp spec fn url_with_port(url: Seq<char>, port: u16) -> Option<Seq<char>>;

/// Most bytes of a URL that takes a port: the url crate indexes a URL by
/// `u32`, and the text must stay within that once a port is written into
/// it, which takes up to six bytes with the colon.
pub const MAX_URL_LEN: usize = 4294967289;

/// Whether a port can be set on `url`: the text is the serialization of a
/// URL, which is to say that `Url::parse` reads it back as it stands, and it
/// is short enough to hold one more port.
pub open spec fn takes_port(url: Seq<char>) -> bool {
    &&& url_parse(url) == Some(url)
    &&& vstd::utf8::encode_utf8(url).len() <= MAX_URL_LEN
}

/// The text of `s`, where there is one.
pub open spec fn opt_text(s: Option<String>) -> Option<Seq<char>> {
    match s {
        Some(text) => Some(text@),
        None => None,
    }
}

/// `Url::parse`, with the URL handed back in its serialized form. The
/// contract names the result and claims nothing else of it.
#[verifier::external_body]
fn parse_url(input: &str) -> (r: Option<String>)
    ensures
        opt_text(r) == url_parse(input@),
{
    match Url::parse(input) {
        Ok(url) => Some(String::from(url)),
        Err(_) => None,
    }
}

/// `Url::set_port` with `Some(port)`, on a URL that is given and handed back
/// in its serialized form. The text is turned into the URL by `Url::parse`,
/// which reads it back as it stands, since it takes a port; its length then
/// leaves room for the port that is written. The contract names the result
/// and claims nothing else of it.
#[verifier::external_body]
fn set_url_port(url: &str, port: u16) -> (r: Option<String>)
    requires
        takes_port(url@),
    ensures
        opt_text(r) == url_with_port(url@, port),
{
    let mut parsed = Url::parse(url).ok()?;
    match parsed.set_port(Some(port)) {
        Ok(()) => Some(String::from(parsed)),
        Err(()) => None,
    }
}

/// Whether a port can be set on the URL with the serialization `url`.
fn can_take_port(url: &String) -> (r: bool)
    ensures
        r == takes_port(url@),
{
    if url.as_str().as_bytes().len() <= MAX_URL_LEN {
        match parse_url(url.as_str()) {
            Some(again) => again == *url,
            None => false,
        }
    } else {
        false
    }
}

/// The base URL of a service: the URL that `hostname` names, with its port
/// set to `port`; `None` where `hostname` names no URL, or one that takes no
/// port or can have none.
pub open spec fn spec_base_url(hostname: Seq<char>, port: u16) -> Option<Seq<char>> {
    match url_parse(hostname) {
        Some(url) => if takes_port(url) {
            url_with_port(url, port)
        } else {
            None
        },
        None => None,
    }
}

/// The base URL of a service, in its serialized form.
pub fn base_url(hostname: &str, port: u16) -> (r: Option<String>)
    ensures
        opt_text(r) == spec_base_url(hostname@, port),
{
    match parse_url(hostname) {
        Some(url) => if can_take_port(&url) {
            set_url_port(url.as_str(), port)
        } else {
            None
        },
        None => None,
    }
}

impl HttpClientPlan {
    /// The base URL that the client sends its requests to.
    pub fn base_url(&self) -> (r: Option<String>)
        ensures
            opt_text(r) == spec_base_url(self.hostname@, self.port),
    {
        base_url(self.hostname.as_str(), self.port)
    }
}

} // verus!
