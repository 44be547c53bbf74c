//! Absolute URLs as the `url` crate parses and serialises them.
//!
//! A [`WebUrl`] is viewed as its serialisation. What the `url` crate computes from a
//! serialisation is named by the uninterpreted functions below: each is a
//! function of its arguments alone.

use vstd::prelude::*;

verus! {

#[verifier::external_type_specification]
#[verifier::external_body]
pub struct ExternalUrl(url::Url);

/// What `url::Url::parse` makes of `input`: the serialisation of the parsed URL,
/// or the message of the parse error.
pub uninterp spec fn spec_url_parse(input: Seq<char>) -> Result<Seq<char>, Seq<char>>;

/// What `url::Url::join` makes of `reference` against the URL serialised as `base`.
pub uninterp spec fn spec_url_join(base: Seq<char>, reference: Seq<char>) -> Result<
    Seq<char>,
    Seq<char>,
>;

/// What `url::Url::scheme` returns for the URL serialised as `url`.
pub uninterp spec fn spec_url_scheme(url: Seq<char>) -> Seq<char>;

/// What `url::Url::host_str` returns for the URL serialised as `url`.
pub uninterp spec fn spec_url_host(url: Seq<char>) -> Option<Seq<char>>;

/// What `url::Url::port_or_known_default` returns for the URL serialised as `url`.
pub uninterp spec fn spec_url_port(url: Seq<char>) -> Option<u16>;

/// The serialisation after `url::Url::set_query(query)` on the URL serialised as `url`.
pub uninterp spec fn spec_url_with_query(url: Seq<char>, query: Option<Seq<char>>) -> Seq<char>;

/// The message of a URL that could not be parsed.
#[derive(Clone, Debug, PartialEq, Eq)]
pub struct UrlParseError {
    message: String,
}

impl View for UrlParseError {
    type V = Seq<char>;

    closed spec fn view(&self) -> Seq<char> {
        self.message@
    }
}

impl UrlParseError {
    pub fn message(&self) -> (r: &str)
        ensures
            r@ == self@,
    {
        self.message.as_str()
    }
}

/// An absolute URL together with its serialisation.
#[derive(Debug)]
pub struct WebUrl {
    inner: url::Url,
    text: String,
}

impl View for WebUrl {
    type V = Seq<char>;

    closed spec fn view(&self) -> Seq<char> {
        self.text@
    }
}

/// Calls `url::Url::parse`; the result is named by [`spec_url_parse`].
#[verifier::external_body]
fn parse_url(input: &str) -> (r: Result<WebUrl, UrlParseError>)
    ensures
        match r {
            Ok(url) => spec_url_parse(input@) == Ok::<Seq<char>, Seq<char>>(url@),
            Err(error) => spec_url_parse(input@) == Err::<Seq<char>, Seq<char>>(error@),
        },
{
    match url::Url::parse(input) {
        Ok(inner) => {
            let text = inner.as_str().to_owned();
            Ok(WebUrl { inner, text })
        },
        Err(error) => Err(UrlParseError { message: error.to_string() }),
    }
}

/// Calls `url::Url::join`; the result is named by [`spec_url_join`].
#[verifier::external_body]
fn join_url(base: &WebUrl, reference: &str) -> (r: Result<WebUrl, UrlParseError>)
    ensures
        match r {
            Ok(url) => spec_url_join(base@, reference@) == Ok::<Seq<char>, Seq<char>>(url@),
            Err(error) => spec_url_join(base@, reference@) == Err::<Seq<char>, Seq<char>>(
                error@,
            ),
        },
{
    match base.inner.join(reference) {
        Ok(inner) => {
            let text = inner.as_str().to_owned();
            Ok(WebUrl { inner, text })
        },
        Err(error) => Err(UrlParseError { message: error.to_string() }),
    }
}

/// Calls `url::Url::scheme`; the result is named by [`spec_url_scheme`].
#[verifier::external_body]
fn url_scheme(url: &WebUrl) -> (r: &str)
    ensures
        r@ == spec_url_scheme(url@),
{
    url.inner.scheme()
}

/// Calls `url::Url::host_str`; the result is named by [`spec_url_host`].
#[verifier::external_body]
fn url_host(url: &WebUrl) -> (r: Option<&str>)
    ensures
        match r {
            Some(host) => spec_url_host(url@) == Some(host@),
            None => spec_url_host(url@) is None,
        },
{
    url.inner.host_str()
}

/// Calls `url::Url::port_or_known_default`; the result is named by [`spec_url_port`].
#[verifier::external_body]
fn url_port(url: &WebUrl) -> (r: Option<u16>)
    ensures
        r == spec_url_port(url@),
{
    url.inner.port_or_known_default()
}

/// Calls `url::Url::set_query`; the new serialisation is named by [`spec_url_with_query`].
#[verifier::external_body]
fn url_set_query(url: &mut WebUrl, query: Option<&str>)
    ensures
        final(url)@ == spec_url_with_query(
            old(url)@,
            match query {
                Some(q) => Some(q@),
                None => None,
            },
        ),
{
    url.inner.set_query(query);
    url.text = url.inner.as_str().to_owned();
}

/// Calls `Clone::clone` of `url::Url`; the copy has the same serialisation.
#[verifier::external_body]
fn clone_url(url: &WebUrl) -> (r: WebUrl)
    ensures
        r@ == url@,
{
    WebUrl { inner: url.inner.clone(), text: url.text.clone() }
}

impl WebUrl {
    /// The parsed URL that this value holds.
    pub(crate) closed spec fn parsed(&self) -> url::Url {
        self.inner
    }

    /// The parsed URL, for the calls into outside crates that take one.
    pub(crate) fn as_url(&self) -> (r: &url::Url)
        ensures
            *r == self.parsed(),
    {
        &self.inner
    }

    pub fn parse(input: &str) -> (r: Result<WebUrl, UrlParseError>)
        ensures
            match r {
                Ok(url) => spec_url_parse(input@) == Ok::<Seq<char>, Seq<char>>(url@),
                Err(error) => spec_url_parse(input@) == Err::<Seq<char>, Seq<char>>(error@),
            },
    {
        parse_url(input)
    }

    pub fn join(&self, reference: &str) -> (r: Result<WebUrl, UrlParseError>)
        ensures
            match r {
                Ok(url) => spec_url_join(self@, reference@) == Ok::<Seq<char>, Seq<char>>(url@),
                Err(error) => spec_url_join(self@, reference@) == Err::<Seq<char>, Seq<char>>(
                    error@,
                ),
            },
    {
        join_url(self, reference)
    }

    pub fn scheme(&self) -> (r: &str)
        ensures
            r@ == spec_url_scheme(self@),
    {
        url_scheme(self)
    }

    pub fn host_str(&self) -> (r: Option<&str>)
        ensures
            match r {
                Some(host) => spec_url_host(self@) == Some(host@),
                None => spec_url_host(self@) is None,
            },
    {
        url_host(self)
    }

    pub fn port_or_known_default(&self) -> (r: Option<u16>)
        ensures
            r == spec_url_port(self@),
    {
        url_port(self)
    }

    pub fn set_query(&mut self, query: Option<&str>)
        ensures
            final(self)@ == spec_url_with_query(
                old(self)@,
                match query {
                    Some(q) => Some(q@),
                    None => None,
                },
            ),
    {
        url_set_query(self, query)
    }

    pub fn as_str(&self) -> (r: &str)
        ensures
            r@ == self@,
    {
        self.text.as_str()
    }

    pub fn to_string(&self) -> (r: String)
        ensures
            r@ == self@,
    {
        self.text.clone()
    }

    pub fn duplicate(&self) -> (r: WebUrl)
        ensures
            r@ == self@,
    {
        clone_url(self)
    }
}

impl Clone for WebUrl {
    fn clone(&self) -> (r: WebUrl)
        ensures
            r@ == self@,
    {
        clone_url(self)
    }
}

impl PartialEq for WebUrl {
    fn eq(&self, other: &WebUrl) -> (r: bool) {
        self.text == other.text
    }
}

impl vstd::std_specs::cmp::PartialEqSpecImpl for WebUrl {
    open spec fn obeys_eq_spec() -> bool {
        true
    }

    open spec fn eq_spec(&self, other: &WebUrl) -> bool {
        self@ == other@
    }
}

impl Eq for WebUrl {}

} // verus!
