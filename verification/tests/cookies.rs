use archetype_browser::cookies::{
    cookie_header, is_same_site, site_domain, site_of_host, CookieJar, CookieRequest, MatchedCookie, RequestMethod, SameSitePolicy,
    StoreOutcome,
};
use archetype_browser::url::WebUrl;

fn url(value: &str) -> WebUrl {
    WebUrl::parse(value).unwrap()
}

fn request<'a>(request_url: &'a WebUrl, top_level_url: &'a WebUrl, method: RequestMethod) -> CookieRequest<'a> {
    CookieRequest { url: request_url, top_level_url, method, is_top_level_navigation: true }
}

#[test]
fn enforces_domain_path_secure_and_http_only_rules() {
    let origin = url("https://accounts.example.com/login");
    let mut jar = CookieJar::new();
    jar.store_response_header(&origin, "session=secret; Domain=example.com; Path=/account; Secure; HttpOnly")
        .unwrap();

    let matching = url("https://shop.example.com/account/orders");
    assert_eq!(jar.request_header(request(&matching, &matching, RequestMethod::Get)), Some("session=secret".to_owned()));
    let insecure = url("http://shop.example.com/account/orders");
    assert_eq!(jar.request_header(request(&insecure, &insecure, RequestMethod::Get)), None);
    let wrong_path = url("https://shop.example.com/settings");
    assert_eq!(jar.request_header(request(&wrong_path, &wrong_path, RequestMethod::Get)), None);
}

#[test]
fn applies_schemeful_same_site_to_get_and_post_navigation() {
    let origin = url("https://login.example.com/");
    let mut jar = CookieJar::new();
    jar.store_response_header(&origin, "strict=1; Domain=example.com; SameSite=Strict; Secure").unwrap();
    jar.store_response_header(&origin, "lax=1; Domain=example.com; SameSite=Lax; Secure").unwrap();
    jar.store_response_header(&origin, "none=1; Domain=example.com; SameSite=None; Secure").unwrap();

    let destination = url("https://app.example.com/dashboard");
    let same_site = jar.request_header(request(&destination, &origin, RequestMethod::Post)).unwrap();
    assert!(same_site.contains("strict=1"));
    assert!(same_site.contains("lax=1"));
    assert!(same_site.contains("none=1"));

    let cross_site = url("https://different.test/");
    let cross_site_get = jar.request_header(request(&destination, &cross_site, RequestMethod::Get)).unwrap();
    assert!(!cross_site_get.contains("strict=1"));
    assert!(cross_site_get.contains("lax=1"));
    assert!(cross_site_get.contains("none=1"));
    assert_eq!(jar.request_header(request(&destination, &cross_site, RequestMethod::Post)), Some("none=1".to_owned()));
}

#[test]
fn rejects_insecure_none_and_drops_expired_cookies() {
    let origin = url("https://example.com/");
    let mut jar = CookieJar::new();
    assert!(jar.store_response_header(&origin, "invalid=1; SameSite=None").is_err());
    assert!(jar.store_response_header(&origin, "gone=1; Max-Age=0").is_err());
    assert_eq!(jar.request_header(request(&origin, &origin, RequestMethod::Get)), None);
}

#[test]
fn persistence_excludes_session_cookies() {
    let origin = url("https://example.com/");
    let mut jar = CookieJar::new();
    jar.store_response_header(&origin, "session=temporary; Secure").unwrap();
    jar.store_response_header(&origin, "persistent=kept; Secure; Expires=Tue, 03 Aug 2100 00:38:37 GMT").unwrap();

    let serialized = jar.persistent_json().unwrap();
    let restored = CookieJar::from_persistent_json(&serialized).unwrap();
    assert_eq!(restored.request_header(request(&origin, &origin, RequestMethod::Get)), Some("persistent=kept".to_owned()));
    assert!(!String::from_utf8(serialized).unwrap().contains("temporary"));
}

#[test]
fn sites_are_registrable_domains_with_their_scheme() {
    assert!(is_same_site(&url("https://app.example.com/"), &url("https://login.example.com/")));
    assert!(!is_same_site(&url("http://app.example.com/"), &url("https://login.example.com/")));
    assert!(!is_same_site(&url("https://example.com/"), &url("https://example.org/")));
    assert_eq!(site_domain(&url("https://a.b.example.co.uk/")), Some(b"example.co.uk".to_vec()));
}

#[test]
fn a_duplicate_jar_keeps_the_cookies() {
    let origin = url("https://example.com/");
    let mut jar = CookieJar::new();
    jar.store_response_header(&origin, "kept=1; Secure").unwrap();
    let copy = jar.duplicate();
    assert_eq!(copy.request_header(request(&origin, &origin, RequestMethod::Get)), Some("kept=1".to_owned()));
}

#[test]
fn an_unparsable_cookie_jar_is_refused() {
    assert!(CookieJar::from_persistent_json(b"not json").is_err());
}

fn matched(name: &str, same_site: Option<SameSitePolicy>) -> MatchedCookie {
    MatchedCookie {
        name: name.to_owned(),
        value: "1".to_owned(),
        same_site,
        domain: "example.com".to_owned(),
        host_only: true,
        path: "/".to_owned(),
        secure: true,
        http_only: false,
        expires: None,
    }
}

#[test]
fn same_site_policy_decides_each_cookie() {
    let strict = vec![matched("strict", Some(SameSitePolicy::Strict))];
    let lax = vec![matched("lax", Some(SameSitePolicy::Lax))];
    let default = vec![matched("default", None)];
    let unrestricted = vec![matched("open", Some(SameSitePolicy::Unrestricted))];
    assert_eq!(cookie_header(&strict, true, false, RequestMethod::Post), Some("strict=1".to_owned()));
    assert_eq!(cookie_header(&strict, false, true, RequestMethod::Get), None);
    assert_eq!(cookie_header(&lax, false, true, RequestMethod::Get), Some("lax=1".to_owned()));
    assert_eq!(cookie_header(&lax, false, true, RequestMethod::Post), None);
    assert_eq!(cookie_header(&default, false, false, RequestMethod::Get), None);
    assert_eq!(cookie_header(&unrestricted, false, false, RequestMethod::Post), Some("open=1".to_owned()));
}

#[test]
fn same_site_requests_carry_every_matched_cookie() {
    let cookies = vec![
        matched("a", Some(SameSitePolicy::Strict)),
        matched("b", None),
        matched("c", Some(SameSitePolicy::Unrestricted)),
    ];
    assert_eq!(cookie_header(&cookies, true, false, RequestMethod::Post), Some("a=1; b=1; c=1".to_owned()));
    assert_eq!(cookie_header(&cookies, false, false, RequestMethod::Post), Some("c=1".to_owned()));
}

#[test]
fn an_empty_cookie_list_restores_an_empty_jar() {
    let jar = CookieJar::from_persistent_json(b"[]").unwrap();
    let page = url("https://example.com/");
    assert_eq!(jar.request_header(request(&page, &page, RequestMethod::Get)), None);
    assert!(CookieJar::from_persistent_json(&[0xff, 0xfe]).is_err());
}

#[test]
fn a_site_is_the_registrable_domain_or_the_host() {
    assert_eq!(site_of_host(b"shop.example.com", Some(b"example.com".to_vec())), b"example.com".to_vec());
    assert_eq!(site_of_host(b"localhost", None), b"localhost".to_vec());
}

#[test]
fn a_session_cookie_is_inserted_then_updated_and_sent() {
    let origin = url("https://example.com/app/page");
    let mut jar = CookieJar::new();
    assert_eq!(jar.store_response_header(&origin, "id=first; Path=/"), Ok(StoreOutcome::Inserted));
    assert_eq!(jar.store_response_header(&origin, "id=second; Path=/"), Ok(StoreOutcome::UpdatedExisting));
    assert_eq!(jar.store_response_header(&origin, "other=1"), Ok(StoreOutcome::Inserted));
    let page = url("https://example.com/app/other");
    let header = jar.request_header(request(&page, &page, RequestMethod::Get)).unwrap();
    let mut pairs: Vec<&str> = header.split("; ").collect();
    pairs.sort();
    assert_eq!(pairs, vec!["id=second", "other=1"]);
}

#[test]
fn an_expired_cookie_expires_the_held_one() {
    let origin = url("https://example.com/");
    let mut jar = CookieJar::new();
    assert_eq!(jar.store_response_header(&origin, "id=1"), Ok(StoreOutcome::Inserted));
    assert_eq!(jar.store_response_header(&origin, "id=1; Max-Age=0"), Ok(StoreOutcome::ExpiredExisting));
    assert_eq!(jar.request_header(request(&origin, &origin, RequestMethod::Get)), None);
}
