//! The loader's rules: which schemes load, the size limits, how a failure is
//! classified, and how a redirect is followed. The transfers themselves are
//! made by the application around these decisions.

use vstd::prelude::*;

use crate::cookies::RequestMethod;
use crate::text::{decimal, decimal_string, str_eq};
use crate::url::{spec_url_join, spec_url_scheme, WebUrl};

verus! {

/// The largest document that the browser loads.
pub const DOCUMENT_LIMIT: usize = 5242880;

/// The largest form body that the browser submits.
pub const FORM_BODY_LIMIT: usize = 1048576;

/// The number of redirects that one load follows.
pub const MAXIMUM_REDIRECTS: usize = 10;

/// A loaded resource.
#[derive(Clone, Debug)]
pub struct ResponseBytes {
    pub final_url: WebUrl,
    pub content_type: Option<String>,
    pub body: Vec<u8>,
}

#[derive(Clone, Copy, Debug, PartialEq, Eq, Structural)]
pub enum LoadErrorKind {
    UnsupportedScheme,
    ResourceTooLarge,
    File,
    Timeout,
    Tls,
    Connection,
    HttpStatus,
    Network,
    InvalidFileUrl,
    InvalidRedirect,
    TooManyRedirects,
}

/// What the HTTP client reports of a failed transfer.
#[derive(Clone, Debug)]
pub struct NetworkFailure {
    pub timed_out: bool,
    pub tls: bool,
    pub connect: bool,
    pub status: Option<u16>,
    pub message: String,
}

#[derive(Clone, Debug)]
pub enum LoadError {
    UnsupportedScheme(String),
    ResourceTooLarge { limit: usize },
    File(String),
    Network(NetworkFailure),
    InvalidFileUrl,
    InvalidRedirect,
    TooManyRedirects,
}

/// The class of a network failure: a timeout first, then a TLS failure, a
/// connection failure, an HTTP error status, or another network failure.
pub open spec fn network_kind(failure: NetworkFailure) -> LoadErrorKind {
    if failure.timed_out {
        LoadErrorKind::Timeout
    } else if failure.tls {
        LoadErrorKind::Tls
    } else if failure.connect {
        LoadErrorKind::Connection
    } else if failure.status is Some {
        LoadErrorKind::HttpStatus
    } else {
        LoadErrorKind::Network
    }
}

pub open spec fn load_error_kind(error: LoadError) -> LoadErrorKind {
    match error {
        LoadError::UnsupportedScheme(_) => LoadErrorKind::UnsupportedScheme,
        LoadError::ResourceTooLarge { .. } => LoadErrorKind::ResourceTooLarge,
        LoadError::File(_) => LoadErrorKind::File,
        LoadError::Network(failure) => network_kind(failure),
        LoadError::InvalidFileUrl => LoadErrorKind::InvalidFileUrl,
        LoadError::InvalidRedirect => LoadErrorKind::InvalidRedirect,
        LoadError::TooManyRedirects => LoadErrorKind::TooManyRedirects,
    }
}

impl LoadError {
    /// The class of this failure.
    pub fn kind(&self) -> (r: LoadErrorKind)
        ensures
            r == load_error_kind(*self),
    {
        match self {
            LoadError::UnsupportedScheme(_) => LoadErrorKind::UnsupportedScheme,
            LoadError::ResourceTooLarge { .. } => LoadErrorKind::ResourceTooLarge,
            LoadError::File(_) => LoadErrorKind::File,
            LoadError::Network(failure) => {
                if failure.timed_out {
                    LoadErrorKind::Timeout
                } else if failure.tls {
                    LoadErrorKind::Tls
                } else if failure.connect {
                    LoadErrorKind::Connection
                } else if failure.status.is_some() {
                    LoadErrorKind::HttpStatus
                } else {
                    LoadErrorKind::Network
                }
            },
            LoadError::InvalidFileUrl => LoadErrorKind::InvalidFileUrl,
            LoadError::InvalidRedirect => LoadErrorKind::InvalidRedirect,
            LoadError::TooManyRedirects => LoadErrorKind::TooManyRedirects,
        }
    }
}

/// The sentence that reports a load failure.
pub open spec fn load_error_text(error: LoadError) -> Seq<char> {
    match error {
        LoadError::UnsupportedScheme(scheme) => "unsupported URL scheme: "@ + scheme@,
        LoadError::ResourceTooLarge { limit } => "resource exceeds "@ + decimal(limit as nat) + " bytes"@,
        LoadError::File(message) => "file load failed: "@ + message@,
        LoadError::Network(failure) => "network load failed: "@ + failure.message@,
        LoadError::InvalidFileUrl => "file URL cannot be converted to a local path"@,
        LoadError::InvalidRedirect => "network redirect is invalid or missing a location"@,
        LoadError::TooManyRedirects => "network redirect limit exceeded"@,
    }
}

impl LoadError {
    /// The sentence that reports this failure.
    pub fn describe(&self) -> (r: String)
        ensures
            r@ == load_error_text(*self),
    {
        match self {
            LoadError::UnsupportedScheme(scheme) => {
                let mut text = String::from_str("unsupported URL scheme: ");
                text.append(scheme.as_str());
                text
            },
            LoadError::ResourceTooLarge { limit } => {
                let mut text = String::from_str("resource exceeds ");
                let digits = decimal_string(*limit);
                text.append(digits.as_str());
                text.append(" bytes");
                text
            },
            LoadError::File(message) => {
                let mut text = String::from_str("file load failed: ");
                text.append(message.as_str());
                text
            },
            LoadError::Network(failure) => {
                let mut text = String::from_str("network load failed: ");
                text.append(failure.message.as_str());
                text
            },
            LoadError::InvalidFileUrl => String::from_str("file URL cannot be converted to a local path"),
            LoadError::InvalidRedirect => String::from_str("network redirect is invalid or missing a location"),
            LoadError::TooManyRedirects => String::from_str("network redirect limit exceeded"),
        }
    }
}

/// Refuses a body longer than `limit` bytes.
pub fn ensure_limit(body: &[u8], limit: usize) -> (r: Result<(), LoadError>)
    ensures
        body@.len() > limit ==> (r matches Err(LoadError::ResourceTooLarge { limit: l }) && l
            == limit),
        body@.len() <= limit ==> r is Ok,
{
    if body.len() > limit {
        Err(LoadError::ResourceTooLarge { limit })
    } else {
        Ok(())
    }
}

/// Refuses a response whose announced length is over `limit` bytes.
pub fn ensure_announced_limit(content_length: Option<u64>, limit: usize) -> (r: Result<
    (),
    LoadError,
>)
    ensures
        (content_length matches Some(size) && size > limit) ==> (r matches Err(
            LoadError::ResourceTooLarge { limit: l },
        ) && l == limit),
        !(content_length matches Some(size) && size > limit) ==> r is Ok,
{
    match content_length {
        Some(size) => if size as u128 > limit as u128 {
            Err(LoadError::ResourceTooLarge { limit })
        } else {
            Ok(())
        },
        None => Ok(()),
    }
}

/// Where a load goes.
#[derive(Clone, Copy, Debug, PartialEq, Eq, Structural)]
pub enum LoadRoute {
    File,
    Http,
}

/// The route for a URL's scheme: `file` from disk, `http` and `https` from the
/// network, anything else refused.
pub fn route(url: &WebUrl) -> (r: Result<LoadRoute, LoadError>)
    ensures
        spec_url_scheme(url@) == "file"@ ==> r == Ok::<LoadRoute, LoadError>(LoadRoute::File),
        (spec_url_scheme(url@) == "http"@ || spec_url_scheme(url@) == "https"@) ==> r == Ok::<
            LoadRoute,
            LoadError,
        >(LoadRoute::Http),
        !(spec_url_scheme(url@) == "file"@ || spec_url_scheme(url@) == "http"@ || spec_url_scheme(
            url@,
        ) == "https"@) ==> (r matches Err(LoadError::UnsupportedScheme(scheme)) && scheme@
            == spec_url_scheme(url@)),
{
    proof {
        reveal_strlit("file");
        reveal_strlit("http");
        reveal_strlit("https");
        assert("file"@[0] != "http"@[0]);
        assert("file"@.len() != "https"@.len());
    }
    let scheme = url.scheme();
    if str_eq(scheme, "file") {
        Ok(LoadRoute::File)
    } else if str_eq(scheme, "http") || str_eq(scheme, "https") {
        Ok(LoadRoute::Http)
    } else {
        Err(LoadError::UnsupportedScheme(String::from_str(scheme)))
    }
}

/// A form submission goes only to `http` and `https` URLs, with a body of at
/// most [`FORM_BODY_LIMIT`] bytes; the body is checked first.
pub fn submission_route(url: &WebUrl, body: &str) -> (r: Result<LoadRoute, LoadError>)
    ensures
        crate::text::utf8_len(body@) > FORM_BODY_LIMIT ==> (r matches Err(
            LoadError::ResourceTooLarge { limit },
        ) && limit == FORM_BODY_LIMIT),
        crate::text::utf8_len(body@) <= FORM_BODY_LIMIT && (spec_url_scheme(url@) == "http"@
            || spec_url_scheme(url@) == "https"@) ==> r == Ok::<LoadRoute, LoadError>(
            LoadRoute::Http,
        ),
        crate::text::utf8_len(body@) <= FORM_BODY_LIMIT && !(spec_url_scheme(url@) == "http"@
            || spec_url_scheme(url@) == "https"@) ==> (r matches Err(
            LoadError::UnsupportedScheme(scheme),
        ) && scheme@ == spec_url_scheme(url@)),
{
    match ensure_limit(body.as_bytes(), FORM_BODY_LIMIT) {
        Ok(()) => {},
        Err(error) => {
            return Err(error);
        },
    }
    let scheme = url.scheme();
    if str_eq(scheme, "http") || str_eq(scheme, "https") {
        Ok(LoadRoute::Http)
    } else {
        Err(LoadError::UnsupportedScheme(String::from_str(scheme)))
    }
}

/// Whether an HTTP status is a redirection (3xx).
pub fn is_redirection(status: u16) -> (r: bool)
    ensures
        r == (300 <= status <= 399),
{
    300 <= status && status <= 399
}

/// The method after a redirect: 303 always turns into GET, and 301 or 302 turn
/// a POST into GET; other redirects keep the method.
pub open spec fn method_after_redirect(status: u16, method: RequestMethod) -> RequestMethod {
    if status == 303 || ((status == 301 || status == 302) && method == RequestMethod::Post) {
        RequestMethod::Get
    } else {
        method
    }
}

/// The next hop after a redirect response with status `status` at hop
/// `redirect_count`: too many redirects once the limit is reached, an invalid
/// redirect without a usable `Location`, else its target resolved against the
/// current URL, with the method that the status calls for.
pub fn next_hop(
    current: &WebUrl,
    method: RequestMethod,
    redirect_count: usize,
    status: u16,
    location: Option<&str>,
) -> (r: Result<(WebUrl, RequestMethod), LoadError>)
    ensures
        redirect_count == MAXIMUM_REDIRECTS ==> r matches Err(LoadError::TooManyRedirects),
        redirect_count != MAXIMUM_REDIRECTS && location is None ==> r matches Err(
            LoadError::InvalidRedirect,
        ),
        redirect_count != MAXIMUM_REDIRECTS ==> (location matches Some(target) ==> match spec_url_join(
            current@,
            target@,
        ) {
            Ok(next) => (r matches Ok((url, next_method)) && url@ == next && next_method
                == method_after_redirect(status, method)),
            Err(_) => r matches Err(LoadError::InvalidRedirect),
        }),
{
    if redirect_count == MAXIMUM_REDIRECTS {
        return Err(LoadError::TooManyRedirects);
    }
    let target = match location {
        Some(target) => target,
        None => {
            return Err(LoadError::InvalidRedirect);
        },
    };
    let next_method = if status == 303 || ((status == 301 || status == 302) && method
        == RequestMethod::Post) {
        RequestMethod::Get
    } else {
        method
    };
    match current.join(target) {
        Ok(url) => Ok((url, next_method)),
        Err(_) => Err(LoadError::InvalidRedirect),
    }
}

/// What a redirect does to the request method: a GET stays a GET after any
/// redirect; a 303 always makes a GET; a 301 or 302 turns a POST into a GET;
/// every other status, 307 and 308 among them, keeps the method.
pub proof fn law_redirect_methods(status: u16, method: RequestMethod)
    ensures
        method == RequestMethod::Get ==> method_after_redirect(status, method) == RequestMethod::Get,
        status == 303 ==> method_after_redirect(status, method) == RequestMethod::Get,
        (status == 301 || status == 302) ==> method_after_redirect(status, method) == RequestMethod::Get,
        !(status == 301 || status == 302 || status == 303) ==> method_after_redirect(status, method) == method,
{
}

} // verus!
