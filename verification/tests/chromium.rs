use archetype_browser::chromium::{
    is_content_url, CefDistribution, ChromiumError, ChromiumEvent, EventEnvelope, RuntimeConfig,
    TabGenerations,
};
use archetype_browser::url::WebUrl;

#[test]
fn persistent_profile_keeps_chromium_site_data_outside_sqlite() {
    let config = RuntimeConfig::persistent("/profiles/main".to_owned(), "zh-CN");
    assert_eq!(config.cache_path, "/profiles/main/chromium/Default");
    assert_eq!(config.locale, "zh-CN");
}

#[test]
fn rejects_internal_routes_from_chromium_content() {
    assert!(is_content_url(&WebUrl::parse("https://example.com").unwrap()));
    assert!(is_content_url(&WebUrl::parse("about:blank").unwrap()));
    assert!(!is_content_url(&WebUrl::parse("archetype://settings/appearance").unwrap()));
}

#[test]
fn ignores_stale_and_closed_tab_events() {
    let mut tabs = TabGenerations::default();
    assert_eq!(tabs.register("tab-1"), 0);
    let first = tabs.begin_navigation("tab-1").unwrap();
    let second = tabs.begin_navigation("tab-1").unwrap();
    let event = |generation| EventEnvelope {
        tab_id: "tab-1".to_owned(),
        generation,
        event: ChromiumEvent::Loading(false),
    };

    assert!(!tabs.accepts(&event(first)));
    assert!(tabs.accepts(&event(second)));
    assert!(tabs.close("tab-1"));
    assert!(!tabs.accepts(&event(second)));
}

#[test]
fn rejects_an_incomplete_distribution_at_its_first_missing_path() {
    let root = "/opt/cef".to_owned();
    let error = CefDistribution::from_root(root.clone(), &vec![true, false, false]).unwrap_err();
    assert_eq!(
        error,
        ChromiumError::RequiredPathMissing(
            "/opt/cef/Chromium Embedded Framework.framework/Resources".to_owned()
        )
    );
    let distribution = CefDistribution::from_root(root, &vec![true, true, true]).unwrap();
    assert_eq!(
        distribution.locales,
        "/opt/cef/Chromium Embedded Framework.framework/Resources/locales"
    );
}

#[test]
fn registering_twice_keeps_the_generation_and_unknown_tabs_do_not_navigate() {
    let mut tabs = TabGenerations::default();
    assert_eq!(tabs.register("a"), 0);
    assert_eq!(tabs.begin_navigation("a"), Some(1));
    assert_eq!(tabs.register("a"), 1);
    assert_eq!(tabs.begin_navigation("b"), None);
    assert!(!tabs.close("b"));
}
