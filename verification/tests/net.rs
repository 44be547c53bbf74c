use archetype_browser::cookies::RequestMethod;
use archetype_browser::net::{
    ensure_announced_limit, ensure_limit, is_redirection, next_hop, route, submission_route, LoadError,
    LoadErrorKind, LoadRoute, NetworkFailure, FORM_BODY_LIMIT, MAXIMUM_REDIRECTS,
};
use archetype_browser::url::WebUrl;

fn url(value: &str) -> WebUrl {
    WebUrl::parse(value).unwrap()
}

#[test]
fn rejects_unknown_scheme() {
    let error = route(&url("data:text/plain,hi")).unwrap_err();
    assert_eq!(error.kind(), LoadErrorKind::UnsupportedScheme);
}

#[test]
fn rejects_file_over_custom_limit() {
    let body = b"pub mod text;\npub mod url;\n";
    assert_eq!(route(&url("file:///crate/src/lib.rs")).unwrap(), LoadRoute::File);
    assert!(matches!(ensure_limit(body, 1), Err(LoadError::ResourceTooLarge { limit: 1 })));
}

#[test]
fn network_failures_are_classified_timeout_first() {
    let failure = |timed_out, tls, connect, status| {
        LoadError::Network(NetworkFailure { timed_out, tls, connect, status, message: String::new() })
    };
    assert_eq!(failure(true, true, true, Some(500)).kind(), LoadErrorKind::Timeout);
    assert_eq!(failure(false, true, true, None).kind(), LoadErrorKind::Tls);
    assert_eq!(failure(false, false, true, None).kind(), LoadErrorKind::Connection);
    assert_eq!(failure(false, false, false, Some(404)).kind(), LoadErrorKind::HttpStatus);
    assert_eq!(failure(false, false, false, None).kind(), LoadErrorKind::Network);
}

#[test]
fn redirects_follow_location_and_switch_post_to_get() {
    let current = url("https://example.com/a/b");
    let (next, method) = next_hop(&current, RequestMethod::Post, 0, 302, Some("../c")).unwrap();
    assert_eq!(next.as_str(), "https://example.com/c");
    assert_eq!(method, RequestMethod::Get);
    let (_, kept) = next_hop(&current, RequestMethod::Post, 0, 307, Some("/d")).unwrap();
    assert_eq!(kept, RequestMethod::Post);
    assert!(matches!(next_hop(&current, RequestMethod::Get, 0, 301, None), Err(LoadError::InvalidRedirect)));
    assert!(matches!(
        next_hop(&current, RequestMethod::Get, MAXIMUM_REDIRECTS, 301, Some("/x")),
        Err(LoadError::TooManyRedirects)
    ));
    assert!(is_redirection(308));
    assert!(!is_redirection(200));
}

#[test]
fn announced_lengths_and_form_bodies_are_bounded() {
    assert!(ensure_announced_limit(Some(11), 10).is_err());
    assert!(ensure_announced_limit(Some(10), 10).is_ok());
    assert!(ensure_announced_limit(None, 0).is_ok());
    let body = "x".repeat(FORM_BODY_LIMIT + 1);
    assert!(matches!(
        submission_route(&url("https://example.com/"), &body),
        Err(LoadError::ResourceTooLarge { limit: FORM_BODY_LIMIT })
    ));
    assert!(matches!(
        submission_route(&url("file:///tmp/form"), "a=b"),
        Err(LoadError::UnsupportedScheme(scheme)) if scheme == "file"
    ));
}

#[test]
fn load_failures_read_as_sentences() {
    assert_eq!(LoadError::ResourceTooLarge { limit: 1024 }.describe(), "resource exceeds 1024 bytes");
    assert_eq!(LoadError::UnsupportedScheme("data".to_owned()).describe(), "unsupported URL scheme: data");
    assert_eq!(LoadError::TooManyRedirects.describe(), "network redirect limit exceeded");
}
