//! The browser's cookie jar and its `SameSite` request policy.
//!
//! Storage, expiry and domain/path matching are the `cookie_store` crate's; what
//! this module decides is which of the matched cookies a request may carry, how
//! they are written into a `Cookie` header, and which `Set-Cookie` headers are refused.

use vstd::prelude::*;

use crate::text::{ascii_lower, ascii_lowercase, opt_view, starts_with, str_eq};
use crate::url::{spec_url_host, spec_url_scheme, WebUrl};

verus! {

#[verifier::external_type_specification]
#[verifier::external_body]
pub struct ExternalCookieStore(cookie_store::CookieStore);

#[verifier::external_type_specification]
#[verifier::external_body]
pub struct ExternalRawCookie<'c>(cookie::Cookie<'c>);

#[derive(Clone, Copy, Debug, PartialEq, Eq, Structural)]
pub enum RequestMethod {
    Get,
    Post,
}

impl RequestMethod {
    /// GET is the only safe method that the browser sends.
    pub fn is_safe(self) -> (r: bool)
        ensures
            r == (self == RequestMethod::Get),
    {
        match self {
            RequestMethod::Get => true,
            RequestMethod::Post => false,
        }
    }
}

/// One request for which the jar chooses cookies.
#[derive(Clone, Copy, Debug)]
pub struct CookieRequest<'a> {
    pub url: &'a WebUrl,
    pub top_level_url: &'a WebUrl,
    pub method: RequestMethod,
    pub is_top_level_navigation: bool,
}

#[derive(Clone, Debug, PartialEq, Eq)]
pub enum CookieJarError {
    InvalidHeader(String),
    Serialize(String),
    Deserialize(String),
}

/// The `SameSite` attribute of a cookie.
#[derive(Clone, Copy, Debug, PartialEq, Eq, Structural)]
pub enum SameSitePolicy {
    Strict,
    Lax,
    Unrestricted,
}

/// What storing a cookie did to the jar.
#[derive(Clone, Copy, Debug, PartialEq, Eq, Structural)]
pub enum StoreOutcome {
    Inserted,
    ExpiredExisting,
    UpdatedExisting,
}

/// A stored cookie that matches a request URL: its name, value and `SameSite`
/// attribute, its domain (and whether it is host-only), its path, whether it
/// is `Secure` and `HttpOnly`, and when it expires (nanoseconds since the Unix
/// epoch; `None` for a session cookie).
#[derive(Clone, Debug)]
pub struct MatchedCookie {
    pub name: String,
    pub value: String,
    pub same_site: Option<SameSitePolicy>,
    pub domain: String,
    pub host_only: bool,
    pub path: String,
    pub secure: bool,
    pub http_only: bool,
    pub expires: Option<i128>,
}

/// A parsed `Set-Cookie` header with the attributes that the jar and the store read.
pub struct ParsedCookie {
    raw: cookie::Cookie<'static>,
    pub name: String,
    pub value: String,
    pub same_site: Option<SameSitePolicy>,
    pub secure: Option<bool>,
    pub http_only: Option<bool>,
    pub domain: Option<String>,
    pub path: Option<String>,
    /// `Max-Age` in nanoseconds (a negative one reads as zero).
    pub max_age: Option<i128>,
    /// `Expires` as nanoseconds since the Unix epoch.
    pub expires: Option<i128>,
}

/// The attributes of a `Set-Cookie` header as mathematical values.
pub struct CookieAttributes {
    pub name: Seq<char>,
    pub value: Seq<char>,
    pub same_site: Option<SameSitePolicy>,
    pub secure: Option<bool>,
    pub http_only: Option<bool>,
    pub domain: Option<Seq<char>>,
    pub path: Option<Seq<char>>,
    pub max_age: Option<int>,
    pub expires: Option<int>,
}

/// An optional integer as a mathematical one.
pub open spec fn opt_int(value: Option<i128>) -> Option<int> {
    match value {
        Some(v) => Some(v as int),
        None => None,
    }
}

/// The attributes of a parsed header.
pub closed spec fn attributes_of(cookie: ParsedCookie) -> CookieAttributes {
    CookieAttributes {
        name: cookie.name@,
        value: cookie.value@,
        same_site: cookie.same_site,
        secure: cookie.secure,
        http_only: cookie.http_only,
        domain: opt_view(cookie.domain),
        path: opt_view(cookie.path),
        max_age: opt_int(cookie.max_age),
        expires: opt_int(cookie.expires),
    }
}

/// What `cookie::Cookie::parse` reads from a `Set-Cookie` header: `None` when it
/// does not parse, else the cookie's name, value and `SameSite`, `Secure`,
/// `HttpOnly`, `Domain`, `Path`, `Max-Age` and `Expires` attributes.
pub uninterp spec fn spec_cookie_attributes(header: Seq<char>) -> Option<CookieAttributes>;

/// The cookies that a store holds, expired ones included, each by its name,
/// value, `SameSite` attribute, domain, path, `Secure`, `HttpOnly` and expiry.
/// The store keys its cookies by domain, path and name, which are the view's.
pub uninterp spec fn spec_store_cookies(store: cookie_store::CookieStore) -> Set<CookieView>;

/// The cookies that the JSON text in `bytes` holds, read as in
/// [`spec_store_cookies`], as `cookie_store::serde::json::load` decodes them
/// before it drops the expired ones; `None` when the bytes are not such a text.
pub uninterp spec fn spec_stored_cookies(bytes: Seq<u8>) -> Option<Set<CookieView>>;

/// What `cookie_store::CookieDomain::Suffix(suffix).matches(url)` returns for
/// the URL serialised as `url`: whether its host domain-matches the suffix.
pub uninterp spec fn spec_cookie_suffix_matches(suffix: Seq<char>, url: Seq<char>) -> bool;

/// What `cookie_store::CookiePath::matches` returns for a cookie path and the
/// URL serialised as `url`: whether the URL's path path-matches it.
pub uninterp spec fn spec_cookie_path_matches(path: Seq<char>, url: Seq<char>) -> bool;

/// What `cookie_store::CookiePath::default_path` gives for the URL serialised as
/// `url`: the default path of a cookie it sets.
pub uninterp spec fn spec_cookie_default_path(url: Seq<char>) -> Seq<char>;

/// What `cookie_store`'s `is_secure` says of the URL serialised as `url`: an
/// `https` URL, or one whose host is `localhost` or a loopback address.
pub uninterp spec fn spec_url_is_secure(url: Seq<char>) -> bool;

/// What `cookie_store::cookie_domain::is_match` says of a stored domain and the
/// URL serialised as `url`: the store's first test of a cookie's domain key when
/// it matches cookies for a request.
pub uninterp spec fn spec_domain_key_matches(domain: Seq<char>, url: Seq<char>) -> bool;

/// What `cookie_store::cookie_path::is_match` says of a stored path and the URL
/// serialised as `url`: the store's first test of a cookie's path key when it
/// matches cookies for a request.
pub uninterp spec fn spec_path_key_matches(path: Seq<char>, url: Seq<char>) -> bool;

/// What `idna::domain_to_ascii` makes of a `Domain` attribute with surrounding
/// white space trimmed, as `cookie_store` reads the attribute; `None` when it
/// refuses it.
pub uninterp spec fn spec_cookie_domain_ascii(attribute: Seq<char>) -> Option<Seq<char>>;

/// Whether the URL's scheme is an HTTP one (`http` or `https` and the like).
pub open spec fn is_http_url(url: Seq<char>) -> bool {
    starts_with(spec_url_scheme(url), "http"@)
}

/// Whether a stored cookie's domain matches the URL: a host-only cookie's host
/// is the URL's host; another domain-matches it.
pub open spec fn domain_matches(cookie: CookieView, url: Seq<char>) -> bool {
    if cookie.host_only {
        spec_url_host(url) == Some(cookie.domain)
    } else {
        spec_cookie_suffix_matches(cookie.domain, url)
    }
}

/// Whether a stored cookie may go with a request to `url`: its domain and path
/// match, a `Secure` cookie needs a secure URL, and an `HttpOnly` one an HTTP
/// URL.
pub open spec fn matches_url(cookie: CookieView, url: Seq<char>) -> bool {
    &&& domain_matches(cookie, url)
    &&& spec_cookie_path_matches(cookie.path, url)
    &&& (cookie.secure ==> spec_url_is_secure(url))
    &&& (cookie.http_only ==> is_http_url(url))
}

/// The text of a `Domain` attribute, empty when there is none.
pub open spec fn domain_text(attributes: CookieAttributes) -> Seq<char> {
    match attributes.domain {
        Some(attribute) => attribute,
        None => Seq::empty(),
    }
}

/// The text of an optional ASCII domain, empty when there is none.
pub open spec fn ascii_text(ascii: Option<Seq<char>>) -> Seq<char> {
    match ascii {
        Some(text) => text,
        None => Seq::empty(),
    }
}

/// The domain a cookie with these attributes gets from `url`, where `ascii` is
/// the ASCII form of its `Domain` attribute and `suffix_matches` whether that
/// domain-matches the URL: a non-empty one that matches, else the URL's host
/// (host-only); `None` when the store refuses it for its domain.
pub open spec fn stored_domain(
    attributes: CookieAttributes,
    url: Seq<char>,
    ascii: Option<Seq<char>>,
    suffix_matches: bool,
) -> Option<(Seq<char>, bool)> {
    let host_only = match spec_url_host(url) {
        Some(host) => Some((host, true)),
        None => None,
    };
    match attributes.domain {
        Some(attribute) => match ascii {
            Some(ascii) => if ascii.len() > 0 {
                if suffix_matches {
                    Some((ascii, false))
                } else {
                    None
                }
            } else {
                host_only
            },
            None => None,
        },
        None => host_only,
    }
}

/// The cookie the store holds for these attributes received from `url`, with
/// the expiry `expires`, or `None` when it refuses them: an `HttpOnly` cookie
/// from a non-HTTP URL, or a domain that does not match (see [`stored_domain`]).
/// Its path is a `Path` attribute that starts with `/`, else `default_path`, the
/// URL's default path.
pub open spec fn stored_view(
    attributes: CookieAttributes,
    url: Seq<char>,
    ascii: Option<Seq<char>>,
    suffix_matches: bool,
    default_path: Seq<char>,
    expires: Option<int>,
) -> Option<CookieView> {
    let http_only = attributes.http_only == Some(true);
    if http_only && !is_http_url(url) {
        None
    } else {
        match stored_domain(attributes, url, ascii, suffix_matches) {
            Some((domain, host_only)) => Some(
                CookieView {
                    name: attributes.name,
                    value: attributes.value,
                    same_site: attributes.same_site,
                    domain,
                    host_only,
                    path: match attributes.path {
                        Some(path) => if path.len() > 0 && path[0] == '/' {
                            path
                        } else {
                            default_path
                        },
                        None => default_path,
                    },
                    secure: attributes.secure == Some(true),
                    http_only,
                    expires,
                },
            ),
            None => None,
        }
    }
}

/// The cookie the store holds for these attributes received from `url`, with
/// the expiry `expires`, or `None` when it refuses them, with the store's
/// reading of the `Domain` attribute and of the URL's default path.
pub open spec fn insertion(attributes: CookieAttributes, url: Seq<char>, expires: Option<int>) -> Option<CookieView> {
    stored_view(
        attributes,
        url,
        spec_cookie_domain_ascii(domain_text(attributes)),
        spec_cookie_suffix_matches(ascii_text(spec_cookie_domain_ascii(domain_text(attributes))), url),
        spec_cookie_default_path(url),
        expires,
    )
}

/// Whether the URL's host is an IPv6 address (written in brackets).
pub open spec fn has_ipv6_host(url: Seq<char>) -> bool {
    spec_url_host(url) matches Some(host) && host.len() > 0 && host[0] == '['
}

/// Whether the store accepts, whatever the time, the session cookie with these
/// attributes from `url` into a store holding `cookies`: it is a session
/// cookie, the store takes its domain and `HttpOnly` flag from this URL, the
/// URL's host is not an IPv6 address, and it would not replace an `HttpOnly`
/// cookie from a non-HTTP URL.
pub open spec fn accepts_session_cookie(cookies: Set<CookieView>, attributes: CookieAttributes, url: Seq<char>) -> bool {
    &&& is_session(attributes)
    &&& insertion(attributes, url, None) is Some
    &&& !has_ipv6_host(url)
    &&& (is_http_url(url) || forall|c: CookieView| #[trigger] cookies.contains(c) && same_key(c, insertion(attributes, url, None)->Some_0) ==> !c.http_only)
}

/// What inserting `stored` does to a store holding `cookies`: it replaces the
/// cookie filed under the same key, if any.
pub open spec fn inserted(cookies: Set<CookieView>, stored: CookieView) -> Set<CookieView> {
    without_key(cookies, stored).insert(stored)
}

/// What storing the cookie with these attributes from `url` did to a store that
/// held `before` and now holds `after`, by its outcome: expiring an existing
/// cookie sets the expiry of the one filed under the cookie's key to the Unix
/// epoch; an insertion or update files the cookie, with an expiry that fits its
/// attributes, under its key, replacing what was filed there, and is an
/// insertion exactly when nothing was.
pub open spec fn store_effect(
    before: Set<CookieView>,
    after: Set<CookieView>,
    attributes: CookieAttributes,
    url: Seq<char>,
    outcome: StoreOutcome,
) -> bool {
    match outcome {
        StoreOutcome::ExpiredExisting => insertion(attributes, url, None) matches Some(key) && exists|held: CookieView|
            #[trigger] before.contains(held) && same_key(held, key) && after == before.remove(held).insert(
                expired_copy(held),
            ),
        _ => exists|expires: Option<int>|
            expiry_fits(attributes, expires) && (#[trigger] insertion(attributes, url, expires) matches Some(stored)
                && after == inserted(before, stored) && (outcome == StoreOutcome::Inserted <==> !exists|held: CookieView|
                #[trigger] before.contains(held) && same_key(held, stored))),
    }
}

/// Whether `saved`, the cookies of a saved jar, stands for persistent cookies
/// that the jar `held`: each stands for one of them, and no two share a key.
pub open spec fn saved_jar(held: Set<CookieView>, saved: Set<CookieView>) -> bool {
    &&& forall|c: CookieView| #[trigger] saved.contains(c) ==> exists|h: CookieView| held.contains(h) && saved_from(c, h)
    &&& forall|a: CookieView, b: CookieView| #[trigger] saved.contains(a) && #[trigger] saved.contains(b) && same_key(a, b) ==> a == b
}

/// Whether a jar restored from the cookies `decoded` holds `restored`: only
/// decoded cookies, and every decoded session cookie whose key no other decoded
/// cookie shares.
pub open spec fn restored_jar(decoded: Set<CookieView>, restored: Set<CookieView>) -> bool {
    &&& restored.subset_of(decoded)
    &&& forall|c: CookieView| #[trigger] decoded.contains(c) && c.expires is None && (forall|d: CookieView|
        decoded.contains(d) && same_key(c, d) ==> d == c) ==> restored.contains(c)
}

/// The instant `expires` cut to whole seconds, as the saved JSON writes it.
pub open spec fn whole_seconds(expires: int) -> int {
    expires - expires % 1_000_000_000
}

/// A saved cookie that stands for a held persistent one: the same but for a
/// `Secure` flag that saving may add (`SameSite=None` and partitioned cookies
/// are written `Secure`) and an expiry written in whole seconds.
pub open spec fn saved_from(saved: CookieView, held: CookieView) -> bool {
    &&& held.expires is Some
    &&& saved.expires == Some(whole_seconds(held.expires->Some_0))
    &&& saved.name == held.name
    &&& saved.value == held.value
    &&& saved.same_site == held.same_site
    &&& saved.domain == held.domain
    &&& saved.host_only == held.host_only
    &&& saved.path == held.path
    &&& saved.http_only == held.http_only
    &&& (held.secure ==> saved.secure)
}

/// What `psl::domain` returns for a host name: its registrable domain, if it has one.
pub uninterp spec fn spec_psl_domain(host: Seq<u8>) -> Option<Seq<u8>>;

/// Calls `cookie::Cookie::same_site` and reads the attribute as the jar's type.
#[verifier::external_body]
fn same_site_of(raw: &cookie::Cookie<'_>) -> (r: Option<SameSitePolicy>) {
    match raw.same_site() {
        Some(cookie::SameSite::Strict) => Some(SameSitePolicy::Strict),
        Some(cookie::SameSite::Lax) => Some(SameSitePolicy::Lax),
        Some(cookie::SameSite::None) => Some(SameSitePolicy::Unrestricted),
        None => None,
    }
}

/// Calls `cookie::Cookie::parse`; whether it parses, and the attributes it
/// reads, are named by [`spec_cookie_attributes`].
#[verifier::external_body]
fn parse_set_cookie(header: &str) -> (r: Result<ParsedCookie, String>)
    ensures
        match r {
            Ok(cookie) => spec_cookie_attributes(header@) == Some(attributes_of(cookie)),
            Err(_) => spec_cookie_attributes(header@) is None,
        },
{
    match cookie::Cookie::parse(header.to_owned()) {
        Ok(raw) => Ok(ParsedCookie {
            name: raw.name().to_owned(), value: raw.value().to_owned(), same_site: same_site_of(&raw),
            secure: raw.secure(), http_only: raw.http_only(),
            domain: raw.domain().map(str::to_owned), path: raw.path().map(str::to_owned),
            max_age: raw.max_age().map(|age| age.whole_nanoseconds()),
            expires: raw.expires_datetime().map(|at| at.unix_timestamp_nanos()),
            raw,
        }),
        Err(error) => Err(error.to_string()),
    }
}

/// Calls `cookie_store::CookieStore::insert_raw` with the cookie received from
/// `url`. Claimed, as the source shows:
/// - a cookie that the store's reading of its attributes refuses (an `HttpOnly`
///   cookie from a non-HTTP URL, a domain that does not match: see
///   [`stored_view`]) is an error, and an error leaves the store as it was;
/// - each outcome changes the store as [`store_effect`] says;
/// - a session cookie that [`accepts_session_cookie`] is inserted or updates.
/// Whether a cookie with an expiry is stored, expires another or is refused as
/// expired depends on the clock, so that is not stated.
#[verifier::external_body]
fn store_insert(store: &mut cookie_store::CookieStore, cookie: &ParsedCookie, url: &WebUrl) -> (r:
    Result<StoreOutcome, String>)
    ensures
        stored_view(
            attributes_of(*cookie),
            url@,
            spec_cookie_domain_ascii(domain_text(attributes_of(*cookie))),
            spec_cookie_suffix_matches(ascii_text(spec_cookie_domain_ascii(domain_text(attributes_of(*cookie)))), url@),
            spec_cookie_default_path(url@),
            None,
        ) is None ==> r is Err,
        r is Err ==> spec_store_cookies(*final(store)) == spec_store_cookies(*old(store)),
        r matches Ok(outcome) ==> store_effect(
            spec_store_cookies(*old(store)),
            spec_store_cookies(*final(store)),
            attributes_of(*cookie),
            url@,
            outcome,
        ),
        accepts_session_cookie(spec_store_cookies(*old(store)), attributes_of(*cookie), url@) ==> (r matches Ok(
            outcome,
        ) && !(outcome is ExpiredExisting)),
{
    match store.insert_raw(&cookie.raw, url.as_url()) {
        Ok(cookie_store::StoreAction::Inserted) => Ok(StoreOutcome::Inserted),
        Ok(cookie_store::StoreAction::ExpiredExisting) => Ok(StoreOutcome::ExpiredExisting),
        Ok(cookie_store::StoreAction::UpdatedExisting) => Ok(StoreOutcome::UpdatedExisting),
        Err(error) => Err(error.to_string()),
    }
}

/// Calls `cookie_store::CookieStore::matches`, which hands out each held cookie
/// that [`handed_out_for`] the URL and has not expired, each checked against
/// its own reading of the clock. Claimed: each cookie handed out is held and
/// matches the URL; no two share a key; every held session cookie that the
/// store hands out for the URL is among them. Which cookies with an expiry
/// had expired depends on the clock, so that is not stated.
#[verifier::external_body]
fn store_matches(store: &cookie_store::CookieStore, url: &WebUrl) -> (r: Vec<MatchedCookie>)
    ensures
        forall|i: int| 0 <= i < r@.len() ==> spec_store_cookies(*store).contains(#[trigger] cookie_view(r@[i])),
        forall|i: int| 0 <= i < r@.len() ==> (#[trigger] r@[i]).host_only ==> spec_url_host(url@) == Some(r@[i].domain@),
        forall|i: int| 0 <= i < r@.len() ==> !(#[trigger] r@[i]).host_only ==> spec_cookie_suffix_matches(r@[i].domain@, url@),
        forall|i: int| 0 <= i < r@.len() ==> spec_cookie_path_matches((#[trigger] r@[i]).path@, url@),
        forall|i: int| 0 <= i < r@.len() ==> (#[trigger] r@[i]).secure ==> spec_url_is_secure(url@),
        forall|i: int| 0 <= i < r@.len() ==> (#[trigger] r@[i]).http_only ==> is_http_url(url@),
        forall|i: int, j: int| 0 <= i < r@.len() && 0 <= j < r@.len() && i != j ==> !same_key(
            #[trigger] cookie_view(r@[i]),
            #[trigger] cookie_view(r@[j]),
        ),
        forall|c: CookieView| #[trigger] spec_store_cookies(*store).contains(c) && c.expires is None
            && spec_domain_key_matches(c.domain, url@) && spec_path_key_matches(c.path, url@) && matches_url(c, url@)
            ==> exists|i: int| 0 <= i < r@.len() && #[trigger] cookie_view(r@[i]) == c,
{
    store.matches(url.as_url()).into_iter().map(|cookie| MatchedCookie {
        name: cookie.name().to_owned(), value: cookie.value().to_owned(), same_site: same_site_of(cookie),
        domain: String::from(&cookie.domain), host_only: matches!(cookie.domain, cookie_store::CookieDomain::HostOnly(_)),
        path: String::from(&cookie.path), secure: cookie.secure() == Some(true), http_only: cookie.http_only() == Some(true),
        expires: match cookie.expires {
            cookie_store::CookieExpiration::AtUtc(at) => Some(at.unix_timestamp_nanos()),
            cookie_store::CookieExpiration::SessionEnd => None,
        },
    }).collect()
}

/// Calls `cookie_store::CookieStore::default`: an empty store.
#[verifier::external_body]
fn empty_store() -> (r: cookie_store::CookieStore)
    ensures
        spec_store_cookies(r) == Set::<CookieView>::empty(),
{
    cookie_store::CookieStore::default()
}

/// Calls `Clone::clone` of `cookie_store::CookieStore`: a store with the same
/// cookies.
#[verifier::external_body]
fn clone_store(store: &cookie_store::CookieStore) -> (r: cookie_store::CookieStore)
    ensures
        spec_store_cookies(r) == spec_store_cookies(*store),
{
    store.clone()
}

/// Calls `cookie_store::serde::json::save`, which writes the persistent cookies
/// of the store that have not expired, each checked against its own reading of
/// the clock, as the JSON list that `cookie_store::serde::json::load` reads.
/// Claimed: each cookie the text holds stands for a persistent one the store
/// holds (see [`saved_from`]), so no session cookie is written, and no two share
/// a key. Which persistent cookies had expired depends on the clock, so that is
/// not stated.
#[verifier::external_body]
fn save_store_json(store: &cookie_store::CookieStore) -> (r: Result<Vec<u8>, String>)
    ensures
        r matches Ok(bytes) ==> (spec_stored_cookies(bytes@) matches Some(saved) && saved_jar(
            spec_store_cookies(*store),
            saved,
        )),
{
    let mut output = Vec::new();
    match cookie_store::serde::json::save(store, &mut output) {
        Ok(()) => Ok(output),
        Err(error) => Err(error.to_string()),
    }
}

/// Calls `cookie_store::serde::json::load` on `bytes`. It fails exactly when the
/// bytes are not a UTF-8 JSON list of cookies, which depends on the bytes alone;
/// otherwise the store files, in list order, each decoded cookie that has not
/// expired (each checked against its own reading of the clock) under its key,
/// replacing what was filed there. Claimed: the store holds no cookie that the
/// text does not, and holds every session cookie of the text whose key no other
/// cookie of the text shares. Which cookies with an expiry had expired depends
/// on the clock, so that is not stated.
#[verifier::external_body]
fn load_store_json(bytes: &[u8]) -> (r: Result<cookie_store::CookieStore, String>)
    ensures
        match r {
            Ok(store) => spec_stored_cookies(bytes@) matches Some(decoded) && restored_jar(
                decoded,
                spec_store_cookies(store),
            ),
            Err(_) => spec_stored_cookies(bytes@) is None,
        },
{
    match cookie_store::serde::json::load(std::io::BufReader::new(std::io::Cursor::new(bytes))) {
        Ok(store) => Ok(store),
        Err(error) => Err(error.to_string()),
    }
}

/// Calls `psl::domain`; the registrable domain is named by [`spec_psl_domain`].
#[verifier::external_body]
fn registrable_domain(host: &[u8]) -> (r: Option<Vec<u8>>)
    ensures
        match r {
            Some(domain) => spec_psl_domain(host@) == Some(domain@),
            None => spec_psl_domain(host@) is None,
        },
{
    psl::domain(host).map(|domain| domain.as_bytes().to_vec())
}

/// The site of a URL: the registrable domain of its lower-cased host, or the
/// host itself when it has none; `None` for a URL without a host.
pub open spec fn site_domain_spec(url: Seq<char>) -> Option<Seq<u8>> {
    match spec_url_host(url) {
        Some(host) => {
            let bytes = vstd::utf8::encode_utf8(ascii_lower(host));
            match spec_psl_domain(bytes) {
                Some(domain) => Some(domain),
                None => Some(bytes),
            }
        },
        None => None,
    }
}

/// Two URLs are same-site when their schemes and sites are equal.
pub open spec fn is_same_site_spec(request_url: Seq<char>, top_level_url: Seq<char>) -> bool {
    &&& spec_url_scheme(request_url) == spec_url_scheme(top_level_url)
    &&& site_domain_spec(request_url) == site_domain_spec(top_level_url)
}

/// The site of a host from its lower-cased bytes and the registrable domain
/// that the public suffix list gives for them: that domain, or the host itself
/// when it has none.
pub fn site_of_host(host: &[u8], registrable: Option<Vec<u8>>) -> (r: Vec<u8>)
    ensures
        r@ == match registrable {
            Some(domain) => domain@,
            None => host@,
        },
{
    match registrable {
        Some(domain) => domain,
        None => vstd::slice::slice_to_vec(host),
    }
}

/// The site of `url`.
pub fn site_domain(url: &WebUrl) -> (r: Option<Vec<u8>>)
    ensures
        match r {
            Some(site) => site_domain_spec(url@) == Some(site@),
            None => site_domain_spec(url@) is None,
        },
{
    let host = match url.host_str() {
        Some(host) => host,
        None => {
            return None;
        },
    };
    let lower = ascii_lowercase(host);
    let bytes = lower.as_str().as_bytes();
    Some(site_of_host(bytes, registrable_domain(bytes)))
}

fn same_bytes(a: &Vec<u8>, b: &Vec<u8>) -> (r: bool)
    ensures
        r == (a@ == b@),
{
    if a.len() != b.len() {
        return false;
    }
    let mut i: usize = 0;
    while i < a.len()
        invariant
            i <= a.len(),
            a.len() == b.len(),
            forall|j: int| 0 <= j < i ==> a@[j] == b@[j],
        decreases a.len() - i,
    {
        if a[i] != b[i] {
            return false;
        }
        i = i + 1;
    }
    proof {
        assert(a@ =~= b@);
    }
    true
}

/// Whether `request_url` is same-site with `top_level_url` (schemeful same-site).
pub fn is_same_site(request_url: &WebUrl, top_level_url: &WebUrl) -> (r: bool)
    ensures
        r == is_same_site_spec(request_url@, top_level_url@),
{
    if !str_eq(request_url.scheme(), top_level_url.scheme()) {
        return false;
    }
    match (site_domain(request_url), site_domain(top_level_url)) {
        (Some(a), Some(b)) => same_bytes(&a, &b),
        (None, None) => true,
        _ => false,
    }
}

/// A cookie as mathematical values: its name, value and `SameSite` attribute,
/// its domain (and whether it is host-only), its path, whether it is `Secure`
/// and `HttpOnly`, and the instant it expires, in nanoseconds since the Unix
/// epoch (`None` for a session cookie, which never expires).
pub struct CookieView {
    pub name: Seq<char>,
    pub value: Seq<char>,
    pub same_site: Option<SameSitePolicy>,
    pub domain: Seq<char>,
    pub host_only: bool,
    pub path: Seq<char>,
    pub secure: bool,
    pub http_only: bool,
    pub expires: Option<int>,
}

/// Whether two cookies share the key a store files them under: domain, path
/// and name.
pub open spec fn same_key(a: CookieView, b: CookieView) -> bool {
    a.domain == b.domain && a.path == b.path && a.name == b.name
}

/// The cookies of `cookies` other than the one filed under `cookie`'s key.
pub open spec fn without_key(cookies: Set<CookieView>, cookie: CookieView) -> Set<CookieView> {
    cookies.filter(|c: CookieView| !same_key(c, cookie))
}

/// `cookie` as the store leaves it once expired: expiring at the Unix epoch.
pub open spec fn expired_copy(cookie: CookieView) -> CookieView {
    CookieView { expires: Some(0), ..cookie }
}

/// Whether `expires` is an expiry that a cookie with these attributes may get:
/// none (a session cookie) without `Max-Age` and `Expires`; the `Expires`
/// instant without `Max-Age`; the Unix epoch for a `Max-Age` of zero; some
/// instant, which depends on the clock, for another `Max-Age`.
pub open spec fn expiry_fits(attributes: CookieAttributes, expires: Option<int>) -> bool {
    match attributes.max_age {
        None => expires == attributes.expires,
        Some(age) => expires is Some && (age == 0 ==> expires == Some(0int)),
    }
}

/// Whether these attributes make a session cookie: neither `Max-Age` nor `Expires`.
pub open spec fn is_session(attributes: CookieAttributes) -> bool {
    attributes.max_age is None && attributes.expires is None
}

/// Whether the store, matching cookies for a request to `url`, hands out
/// `cookie` when it has not expired: its domain and path keys pass the store's
/// first tests and the cookie matches the URL.
pub open spec fn handed_out_for(cookie: CookieView, url: Seq<char>) -> bool {
    &&& spec_domain_key_matches(cookie.domain, url)
    &&& spec_path_key_matches(cookie.path, url)
    &&& matches_url(cookie, url)
}

/// Whether `matched` is a list of cookies that a jar holding `cookies` may
/// match for a request to `url`: each is held and matches the URL, none comes
/// twice, and every held session cookie that the store hands out for the URL is
/// among them (a cookie with an expiry may have expired).
pub open spec fn request_matches(cookies: Set<CookieView>, url: Seq<char>, matched: Seq<CookieView>) -> bool {
    &&& forall|i: int| 0 <= i < matched.len() ==> cookies.contains(#[trigger] matched[i]) && matches_url(matched[i], url)
    &&& matched.no_duplicates()
    &&& forall|c: CookieView| cookies.contains(c) && c.expires is None && handed_out_for(c, url) ==> #[trigger] matched.contains(c)
}

pub open spec fn cookie_view(cookie: MatchedCookie) -> CookieView {
    CookieView {
        name: cookie.name@,
        value: cookie.value@,
        same_site: cookie.same_site,
        domain: cookie.domain@,
        host_only: cookie.host_only,
        path: cookie.path@,
        secure: cookie.secure,
        http_only: cookie.http_only,
        expires: opt_int(cookie.expires),
    }
}

/// Whether a request may carry a cookie: `Strict` only same-site, `Lax` (the
/// default) also on a top-level navigation with a safe method, `None` always.
pub open spec fn may_send(
    cookie: CookieView,
    same_site: bool,
    top_level_navigation: bool,
    method: RequestMethod,
) -> bool {
    match cookie.same_site {
        Some(SameSitePolicy::Strict) => same_site,
        Some(SameSitePolicy::Unrestricted) => true,
        _ => same_site || (top_level_navigation && method == RequestMethod::Get),
    }
}

/// `name=value` of each cookie that may be sent, in order.
pub open spec fn sent_pairs(
    cookies: Seq<CookieView>,
    same_site: bool,
    top_level_navigation: bool,
    method: RequestMethod,
) -> Seq<Seq<char>>
    decreases cookies.len(),
{
    if cookies.len() == 0 {
        Seq::empty()
    } else {
        let previous = sent_pairs(cookies.drop_last(), same_site, top_level_navigation, method);
        let cookie = cookies.last();
        if may_send(cookie, same_site, top_level_navigation, method) {
            previous.push(cookie.name + "="@ + cookie.value)
        } else {
            previous
        }
    }
}

/// The items joined by `separator`.
pub open spec fn joined(items: Seq<Seq<char>>, separator: Seq<char>) -> Seq<char>
    decreases items.len(),
{
    if items.len() == 0 {
        Seq::empty()
    } else if items.len() == 1 {
        items[0]
    } else {
        joined(items.drop_last(), separator) + separator + items.last()
    }
}

/// The `Cookie` header for the matched cookies: the sendable pairs joined by
/// `; `, or none when no cookie may be sent.
pub open spec fn cookie_header_spec(
    cookies: Seq<CookieView>,
    same_site: bool,
    top_level_navigation: bool,
    method: RequestMethod,
) -> Option<Seq<char>> {
    let pairs = sent_pairs(cookies, same_site, top_level_navigation, method);
    if pairs.len() == 0 {
        None
    } else {
        Some(joined(pairs, "; "@))
    }
}

/// The `Cookie` header that a request may carry out of the matched cookies.
pub fn cookie_header(
    cookies: &Vec<MatchedCookie>,
    same_site: bool,
    top_level_navigation: bool,
    method: RequestMethod,
) -> (r: Option<String>)
    ensures
        match r {
            Some(header) => cookie_header_spec(
                cookies@.map_values(|c: MatchedCookie| cookie_view(c)),
                same_site,
                top_level_navigation,
                method,
            ) == Some(header@),
            None => cookie_header_spec(
                cookies@.map_values(|c: MatchedCookie| cookie_view(c)),
                same_site,
                top_level_navigation,
                method,
            ) is None,
        },
{
    let ghost all = cookies@.map_values(|c: MatchedCookie| cookie_view(c));
    let mut out = String::new();
    let mut count: usize = 0;
    let mut i: usize = 0;
    while i < cookies.len()
        invariant
            i <= cookies.len(),
            all == cookies@.map_values(|c: MatchedCookie| cookie_view(c)),
            count <= i,
            count == sent_pairs(all.subrange(0, i as int), same_site, top_level_navigation, method).len(),
            out@ == joined(
                sent_pairs(all.subrange(0, i as int), same_site, top_level_navigation, method),
                "; "@,
            ),
        decreases cookies.len() - i,
    {
        let cookie = &cookies[i];
        let ghost previous = sent_pairs(
            all.subrange(0, i as int),
            same_site,
            top_level_navigation,
            method,
        );
        proof {
            assert(all.subrange(0, i + 1).drop_last() =~= all.subrange(0, i as int));
            assert(all.subrange(0, i + 1).last() == cookie_view(*cookie));
        }
        let allowed = match cookie.same_site {
            Some(SameSitePolicy::Strict) => same_site,
            Some(SameSitePolicy::Unrestricted) => true,
            _ => same_site || (top_level_navigation && method.is_safe()),
        };
        if allowed {
            let ghost before = out@;
            if count > 0 {
                out.append("; ");
            }
            out.append(cookie.name.as_str());
            out.append("=");
            out.append(cookie.value.as_str());
            proof {
                let pair = cookie.name@ + "="@ + cookie.value@;
                let next = previous.push(pair);
                assert(next.drop_last() =~= previous);
                if count == 0 {
                    assert(previous.len() == 0);
                    assert(before == Seq::<char>::empty());
                    assert(out@ =~= pair);
                } else {
                    assert(out@ =~= before + "; "@ + pair);
                }
            }
            count = count + 1;
        }
        i = i + 1;
    }
    proof {
        assert(all.subrange(0, cookies@.len() as int) =~= all);
    }
    if count == 0 {
        None
    } else {
        Some(out)
    }
}

/// The browser's cookies.
pub struct CookieJar {
    store: cookie_store::CookieStore,
}

impl CookieJar {
    /// The cookies that the jar holds, expired ones included.
    pub closed spec fn cookies(&self) -> Set<CookieView> {
        spec_store_cookies(self.store)
    }

    /// An empty jar.
    pub fn new() -> (r: CookieJar)
        ensures
            r.cookies() == Set::<CookieView>::empty(),
    {
        CookieJar { store: empty_store() }
    }

    /// Stores one `Set-Cookie` response header received from `response_url`.
    /// A header that does not parse, or that says `SameSite=None` without
    /// `Secure`, is refused; the store may refuse the cookie too. A refused
    /// cookie leaves the jar as it was; otherwise the outcome changes the jar
    /// as [`store_effect`] says. A session cookie that the store accepts
    /// whatever the time is always inserted or updates.
    pub fn store_response_header(&mut self, response_url: &WebUrl, header: &str) -> (r: Result<
        StoreOutcome,
        CookieJarError,
    >)
        ensures
            spec_cookie_attributes(header@) is None ==> (r matches Err(CookieJarError::InvalidHeader(_))),
            (spec_cookie_attributes(header@) matches Some(a) && a.same_site == Some(SameSitePolicy::Unrestricted)
                && a.secure != Some(true)) ==> (r matches Err(CookieJarError::InvalidHeader(message))
                && message@ == "SameSite=None requires Secure"@),
            (spec_cookie_attributes(header@) matches Some(a) && insertion(a, response_url@, None) is None) ==> r is Err,
            (spec_cookie_attributes(header@) matches Some(a) && !(a.same_site == Some(SameSitePolicy::Unrestricted)
                && a.secure != Some(true)) && accepts_session_cookie(old(self).cookies(), a, response_url@)) ==> (r matches Ok(
                outcome,
            ) && !(outcome is ExpiredExisting)),
            r matches Err(error) ==> error is InvalidHeader,
            r is Err ==> final(self).cookies() == old(self).cookies(),
            r matches Ok(outcome) ==> (spec_cookie_attributes(header@) matches Some(a) && !(a.same_site == Some(
                SameSitePolicy::Unrestricted,
            ) && a.secure != Some(true)) && store_effect(old(self).cookies(), final(self).cookies(), a, response_url@, outcome)),
    {
        let cookie = match parse_set_cookie(header) {
            Ok(cookie) => cookie,
            Err(message) => {
                return Err(CookieJarError::InvalidHeader(message));
            },
        };
        let insecure_none = match cookie.same_site {
            Some(SameSitePolicy::Unrestricted) => match cookie.secure {
                Some(true) => false,
                _ => true,
            },
            _ => false,
        };
        if insecure_none {
            return Err(
                CookieJarError::InvalidHeader(String::from_str("SameSite=None requires Secure")),
            );
        }
        match store_insert(&mut self.store, &cookie, response_url) {
            Ok(outcome) => Ok(outcome),
            Err(message) => Err(CookieJarError::InvalidHeader(message)),
        }
    }

    /// The `Cookie` header for `request`: of the cookies that the store matches
    /// for the request URL, those that the `SameSite` policy lets the request
    /// carry. The matched cookies are held by the jar, match the URL, come once
    /// each, and include every held session cookie that the store hands out for
    /// the URL; a cookie with an expiry is left out once it has expired.
    pub fn request_header(&self, request: CookieRequest<'_>) -> (r: Option<String>)
        ensures
            exists|matched: Seq<CookieView>|
                request_matches(self.cookies(), request.url@, matched) && #[trigger] cookie_header_spec(
                    matched,
                    is_same_site_spec(request.url@, request.top_level_url@),
                    request.is_top_level_navigation,
                    request.method,
                ) == opt_view(r),
    {
        let same_site = is_same_site(request.url, request.top_level_url);
        let matched = store_matches(&self.store, request.url);
        let r = cookie_header(&matched, same_site, request.is_top_level_navigation, request.method);
        proof {
            let views = matched@.map_values(|c: MatchedCookie| cookie_view(c));
            let url = request.url@;
            assert forall|i: int| 0 <= i < views.len() implies self.cookies().contains(#[trigger] views[i])
                && matches_url(views[i], url) by {
                assert(views[i] == cookie_view(matched@[i]));
            }
            assert forall|i: int, j: int| 0 <= i < views.len() && 0 <= j < views.len() && i != j implies views[i]
                != views[j] by {
                assert(views[i] == cookie_view(matched@[i]));
                assert(views[j] == cookie_view(matched@[j]));
                assert(!same_key(cookie_view(matched@[i]), cookie_view(matched@[j])));
            }
            assert forall|c: CookieView| self.cookies().contains(c) && c.expires is None && handed_out_for(c, url)
                implies #[trigger] views.contains(c) by {
                let i = choose|i: int| 0 <= i < matched@.len() && #[trigger] cookie_view(matched@[i]) == c;
                assert(views[i] == c);
            }
            assert(request_matches(self.cookies(), url, views));
            assert(cookie_header_spec(views, same_site, request.is_top_level_navigation, request.method)
                == opt_view(r));
        }
        r
    }

    /// The unexpired persistent cookies as JSON; session cookies are left out.
    /// Each cookie that the text holds stands for a persistent one that the jar
    /// holds (see [`saved_from`]), and no two share a key.
    pub fn persistent_json(&self) -> (r: Result<Vec<u8>, CookieJarError>)
        ensures
            r matches Err(error) ==> error is Serialize,
            r matches Ok(bytes) ==> (spec_stored_cookies(bytes@) matches Some(saved) && saved_jar(self.cookies(), saved)),
    {
        match save_store_json(&self.store) {
            Ok(bytes) => Ok(bytes),
            Err(message) => Err(CookieJarError::Serialize(message)),
        }
    }

    /// Restores the cookies saved by [`CookieJar::persistent_json`]: refused
    /// exactly when `value` is not a JSON list of cookies; otherwise the jar
    /// holds cookies of the list (the unexpired ones), among them every session
    /// cookie of the list whose key no other cookie of the list shares.
    pub fn from_persistent_json(value: &[u8]) -> (r: Result<CookieJar, CookieJarError>)
        ensures
            r matches Err(error) ==> error is Deserialize,
            r is Err <==> spec_stored_cookies(value@) is None,
            r matches Ok(jar) ==> (spec_stored_cookies(value@) matches Some(decoded) && restored_jar(decoded, jar.cookies())),
    {
        match load_store_json(value) {
            Ok(store) => Ok(CookieJar { store }),
            Err(message) => Err(CookieJarError::Deserialize(message)),
        }
    }

    /// A copy of the jar.
    pub fn duplicate(&self) -> (r: CookieJar)
        ensures
            r.cookies() == self.cookies(),
    {
        CookieJar { store: clone_store(&self.store) }
    }
}

/// A jar that holds no cookie sends none: whatever the store matches is held
/// by the jar, and a `Cookie` header made of nothing is no header.
pub proof fn law_empty_jar_sends_no_cookie(
    cookies: Set<CookieView>,
    matched: Seq<CookieView>,
    same_site: bool,
    top_level_navigation: bool,
    method: RequestMethod,
)
    requires
        cookies == Set::<CookieView>::empty(),
        forall|i: int| 0 <= i < matched.len() ==> cookies.contains(#[trigger] matched[i]),
    ensures
        cookie_header_spec(matched, same_site, top_level_navigation, method) is None,
{
    if matched.len() > 0 {
        assert(cookies.contains(matched[0]));
    }
    assert(matched.len() == 0);
    assert(sent_pairs(matched, same_site, top_level_navigation, method).len() == 0);
}

/// The `SameSite` policy for one matched cookie: a same-site request carries
/// it; a cross-site request carries a `Strict` cookie never, a `Lax` or default
/// one only on a top-level GET navigation, and a `SameSite=None` one always.
pub proof fn law_same_site_policy(cookie: CookieView, top_level_navigation: bool, method: RequestMethod)
    ensures
        cookie_header_spec(seq![cookie], true, top_level_navigation, method) == Some(cookie.name + "="@ + cookie.value),
        cookie.same_site == Some(SameSitePolicy::Strict) ==> cookie_header_spec(
            seq![cookie],
            false,
            top_level_navigation,
            method,
        ) is None,
        cookie.same_site == Some(SameSitePolicy::Unrestricted) ==> cookie_header_spec(
            seq![cookie],
            false,
            top_level_navigation,
            method,
        ) == Some(cookie.name + "="@ + cookie.value),
        (cookie.same_site is None || cookie.same_site == Some(SameSitePolicy::Lax)) ==> (cookie_header_spec(
            seq![cookie],
            false,
            top_level_navigation,
            method,
        ) is Some <==> (top_level_navigation && method == RequestMethod::Get)),
{
    let single = seq![cookie];
    assert(single.drop_last() =~= Seq::<CookieView>::empty());
    assert(single.last() == cookie);
    assert(sent_pairs(single.drop_last(), true, top_level_navigation, method) == Seq::<Seq<char>>::empty());
    assert(sent_pairs(single.drop_last(), false, top_level_navigation, method) == Seq::<Seq<char>>::empty());
    let pair = cookie.name + "="@ + cookie.value;
    assert(Seq::<Seq<char>>::empty().push(pair) =~= seq![pair]);
    assert(joined(seq![pair], "; "@) == pair);
}

/// A same-site request carries every cookie that the store matches for it.
pub proof fn law_same_site_request_carries_every_match(
    cookies: Seq<CookieView>,
    top_level_navigation: bool,
    method: RequestMethod,
)
    ensures
        sent_pairs(cookies, true, top_level_navigation, method) == cookies.map_values(
            |c: CookieView| c.name + "="@ + c.value,
        ),
    decreases cookies.len(),
{
    if cookies.len() > 0 {
        law_same_site_request_carries_every_match(cookies.drop_last(), top_level_navigation, method);
        assert(cookies.map_values(|c: CookieView| c.name + "="@ + c.value) =~= cookies.drop_last().map_values(
            |c: CookieView| c.name + "="@ + c.value,
        ).push(cookies.last().name + "="@ + cookies.last().value));
    } else {
        assert(cookies.map_values(|c: CookieView| c.name + "="@ + c.value) =~= Seq::<Seq<char>>::empty());
    }
}

proof fn lemma_sent_pairs_include(
    cookies: Seq<CookieView>,
    i: int,
    same_site: bool,
    top_level_navigation: bool,
    method: RequestMethod,
)
    requires
        0 <= i < cookies.len(),
        may_send(cookies[i], same_site, top_level_navigation, method),
    ensures
        sent_pairs(cookies, same_site, top_level_navigation, method).contains(cookies[i].name + "="@ + cookies[i].value),
    decreases cookies.len(),
{
    let previous = sent_pairs(cookies.drop_last(), same_site, top_level_navigation, method);
    let pair = cookies[i].name + "="@ + cookies[i].value;
    if i == cookies.len() - 1 {
        assert(previous.push(pair).last() == pair);
    } else {
        lemma_sent_pairs_include(cookies.drop_last(), i, same_site, top_level_navigation, method);
        let j = choose|j: int| 0 <= j < previous.len() && previous[j] == pair;
        if may_send(cookies.last(), same_site, top_level_navigation, method) {
            let last = cookies.last();
            assert(previous.push(last.name + "="@ + last.value)[j] == pair);
        }
    }
}

/// A held session cookie that the store hands out for a request URL, and that
/// the `SameSite` policy lets the request carry, is sent: whatever list of
/// cookies the jar matched for the request, its `name=value` pair is among the
/// pairs of the `Cookie` header, so there is a header.
pub proof fn law_held_session_cookie_is_sent(
    cookies: Set<CookieView>,
    url: Seq<char>,
    matched: Seq<CookieView>,
    cookie: CookieView,
    same_site: bool,
    top_level_navigation: bool,
    method: RequestMethod,
)
    requires
        request_matches(cookies, url, matched),
        cookies.contains(cookie),
        cookie.expires is None,
        handed_out_for(cookie, url),
        may_send(cookie, same_site, top_level_navigation, method),
    ensures
        sent_pairs(matched, same_site, top_level_navigation, method).contains(cookie.name + "="@ + cookie.value),
        cookie_header_spec(matched, same_site, top_level_navigation, method) is Some,
{
    assert(matched.contains(cookie));
    let i = choose|i: int| 0 <= i < matched.len() && matched[i] == cookie;
    lemma_sent_pairs_include(matched, i, same_site, top_level_navigation, method);
}

/// Storing a session cookie that is inserted or updates leaves the jar holding
/// it, as received, with no expiry; every other cookie the jar now holds it held
/// before, under another key.
pub proof fn law_stored_session_cookie_is_held(
    before: Set<CookieView>,
    after: Set<CookieView>,
    attributes: CookieAttributes,
    url: Seq<char>,
    outcome: StoreOutcome,
)
    requires
        is_session(attributes),
        store_effect(before, after, attributes, url, outcome),
        !(outcome is ExpiredExisting),
    ensures
        insertion(attributes, url, None) matches Some(stored) && after.contains(stored) && stored.expires is None
            && forall|c: CookieView| #[trigger] after.contains(c) && c != stored ==> before.contains(c) && !same_key(c, stored),
{
    let expires = choose|expires: Option<int>|
        expiry_fits(attributes, expires) && (#[trigger] insertion(attributes, url, expires) matches Some(stored)
            && after == inserted(before, stored) && (outcome == StoreOutcome::Inserted <==> !exists|held: CookieView|
            #[trigger] before.contains(held) && same_key(held, stored)));
    assert(expires is None);
}

/// A session cookie that a jar stored is sent on a later request that the
/// store hands it out for and that the `SameSite` policy lets carry it.
pub proof fn law_stored_session_cookie_is_sent(
    before: Set<CookieView>,
    after: Set<CookieView>,
    attributes: CookieAttributes,
    response_url: Seq<char>,
    outcome: StoreOutcome,
    request_url: Seq<char>,
    matched: Seq<CookieView>,
    same_site: bool,
    top_level_navigation: bool,
    method: RequestMethod,
)
    requires
        is_session(attributes),
        store_effect(before, after, attributes, response_url, outcome),
        !(outcome is ExpiredExisting),
        request_matches(after, request_url, matched),
        insertion(attributes, response_url, None) matches Some(stored) && handed_out_for(stored, request_url)
            && may_send(stored, same_site, top_level_navigation, method),
    ensures
        insertion(attributes, response_url, None) matches Some(stored) && sent_pairs(
            matched,
            same_site,
            top_level_navigation,
            method,
        ).contains(stored.name + "="@ + stored.value),
        cookie_header_spec(matched, same_site, top_level_navigation, method) is Some,
{
    law_stored_session_cookie_is_held(before, after, attributes, response_url, outcome);
    let stored = insertion(attributes, response_url, None)->Some_0;
    law_held_session_cookie_is_sent(after, request_url, matched, stored, same_site, top_level_navigation, method);
}

/// Saving a jar and restoring it gives back only persistent cookies: each
/// restored cookie stands for a persistent one the jar held, and no session
/// cookie of the jar comes back.
pub proof fn law_restored_cookies_were_persistent(
    held: Set<CookieView>,
    saved: Set<CookieView>,
    restored: Set<CookieView>,
)
    requires
        saved_jar(held, saved),
        restored_jar(saved, restored),
    ensures
        forall|c: CookieView| #[trigger] restored.contains(c) ==> c.expires is Some && exists|h: CookieView|
            held.contains(h) && saved_from(c, h),
        forall|h: CookieView| #[trigger] held.contains(h) && h.expires is None ==> !restored.contains(h),
{
    assert forall|c: CookieView| #[trigger] restored.contains(c) implies c.expires is Some && exists|h: CookieView|
        held.contains(h) && saved_from(c, h) by {
        assert(saved.contains(c));
    }
}

} // verus!
