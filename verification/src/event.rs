//! The events of the proxy from which metrics are made.
//!
//! Durations are whole numbers in the unit in which the bounds of the
//! histograms are given.
use http::uri::InvalidUri;
use vstd::prelude::*;

verus! {

/// `http::uri::InvalidUri`, the reason for which a text is not a URI.
#[verifier::external_type_specification]
#[verifier::external_body]
pub struct ExInvalidUri(InvalidUri);

/// What `http` reads in the text of a URI: `None` where the text is not a URI,
/// and otherwise the URI's authority, if it has one.
pub uninterp spec fn authority_text(uri: Seq<char>) -> Option<Option<Seq<char>>>;

/// The value of an optional text.
pub open spec fn text_view(text: Option<String>) -> Option<Seq<char>> {
    match text {
        Some(text) => Some(text@),
        None => None,
    }
}

/// Calls `http::Uri::authority_part` on the `http::Uri` parsed from `uri`, and
/// `Authority::to_string` on what it returns: a text that does not parse has
/// the parser's error, and otherwise the result is the authority, if there is
/// one. It depends on the text alone. An authority is never empty, and a URI
/// that starts with a slash has none.
#[verifier::external_body]
fn parse_authority(uri: &str) -> (authority: Result<Option<String>, InvalidUri>)
    ensures
        match authority {
            Ok(authority) => authority_text(uri@) == Some(text_view(authority)),
            Err(_) => authority_text(uri@) is None,
        },
        authority matches Ok(Some(authority)) ==> authority@.len() > 0 && uri@.len() > 0 && uri@[0]
            != '/',
{
    let uri = uri.parse::<http::Uri>()?;
    Ok(uri.authority_part().map(|authority| authority.to_string()))
}

/// The error for a text that is not a URI.
#[derive(Clone, Copy, Debug, PartialEq, Eq)]
pub struct UriError;

/// The URI of a request, of which metrics read the authority.
#[derive(Clone, Debug)]
pub struct Uri {
    /// The `:authority` or `Host` that the URI names.
    authority: Option<String>,
}

impl View for Uri {
    type V = Option<Seq<char>>;

    /// The URI's authority, if it has one.
    closed spec fn view(&self) -> Option<Seq<char>> {
        text_view(self.authority)
    }
}

impl Uri {
    /// Reads a URI.
    pub fn parse(uri: &str) -> (parsed: Result<Uri, UriError>)
        ensures
            match parsed {
                Ok(parsed) => authority_text(uri@) == Some(parsed@),
                Err(_) => authority_text(uri@) is None,
            },
            parsed matches Ok(parsed) ==> (parsed@ matches Some(authority) ==> authority.len() > 0
                && uri@.len() > 0 && uri@[0] != '/'),
    {
        match parse_authority(uri) {
            Ok(authority) => Ok(Uri { authority }),
            Err(_) => Err(UriError),
        }
    }

    /// The authority of the URI, if it has one.
    pub fn authority_part(&self) -> (authority: Option<String>)
        ensures
            text_view(authority) == self@,
            authority matches Some(authority) ==> self@ == Some(authority@),
            authority is None <==> self@ is None,
    {
        self.authority.clone()
    }
}

/// A request that the proxy has received.
#[derive(Clone, Debug)]
pub struct Request {
    /// Whether the proxy that received the request serves outbound traffic.
    pub outbound: bool,
    /// The request's URI.
    pub uri: Uri,
}

impl Request {
    /// Whether the proxy that received the request serves outbound traffic.
    pub fn is_outbound(&self) -> (outbound: bool)
        ensures
            outbound == self.outbound,
    {
        self.outbound
    }
}

/// A response that the proxy has received.
#[derive(Clone, Debug)]
pub struct Response {
    /// The request that is answered.
    pub request: Request,
    /// The HTTP status code.
    pub status: u16,
}

/// How a request's stream failed.
#[derive(Clone, Copy, Debug)]
pub struct StreamRequestFail {
    pub since_request_open: u64,
}

/// How a request's stream ended.
#[derive(Clone, Copy, Debug)]
pub struct StreamRequestEnd {
    pub since_request_open: u64,
}

/// How a response's stream failed.
#[derive(Clone, Copy, Debug)]
pub struct StreamResponseFail {
    pub since_request_open: u64,
    pub since_response_open: u64,
}

/// How a response's stream ended.
#[derive(Clone, Copy, Debug)]
pub struct StreamResponseEnd {
    /// The value of the grpc-status trailer, if there was one.
    pub grpc_status: Option<u32>,
    pub since_request_open: u64,
    pub since_response_open: u64,
}

/// Something that the proxy has seen.
#[derive(Clone, Debug)]
pub enum Event {
    TransportOpen,
    TransportClose,
    StreamRequestOpen(Request),
    StreamRequestFail(Request, StreamRequestFail),
    StreamRequestEnd(Request, StreamRequestEnd),
    StreamResponseOpen(Response),
    StreamResponseFail(Response, StreamResponseFail),
    StreamResponseEnd(Response, StreamResponseEnd),
}

} // verus!
