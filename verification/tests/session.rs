use archetype_browser::session::{pending_navigation, BrowserCommand, BrowserEvent, NavigationStartError, Session};
use archetype_browser::types::{LoadStage, NavigationId, PageId};

fn new_page_id() -> PageId {
    PageId::new(&uuid::Uuid::now_v7().to_string())
}

fn parse_url(value: &str) -> String {
    url::Url::parse(value).unwrap().to_string()
}

#[test]
fn navigation_ids_increase_and_stale_results_are_rejected() {
    let mut session = Session::new();
    let page_id = new_page_id();
    let first = session.handle(BrowserCommand::Navigate { page_id: page_id.clone(), url: parse_url("https://example.com/one") });
    let second = session.handle(BrowserCommand::Navigate { page_id: page_id.clone(), url: parse_url("https://example.com/two") });
    let id = |event| match event {
        BrowserEvent::NavigationStarted { navigation_id, .. } => navigation_id,
        _ => NavigationId::zero(),
    };
    assert!(!session.accepts(&page_id, id(first)));
    assert!(session.accepts(&page_id, id(second)));
}

#[test]
fn back_and_forward_do_not_duplicate_history() {
    let mut session = Session::new();
    let page_id = new_page_id();
    for url in ["https://example.com/one", "https://example.com/two"] {
        let _ = session.handle(BrowserCommand::Navigate { page_id: page_id.clone(), url: parse_url(url) });
    }
    let back = session.handle(BrowserCommand::Back { page_id: page_id.clone() });
    let forward = session.handle(BrowserCommand::Forward { page_id });
    assert!(matches!(back, BrowserEvent::NavigationStarted { url, .. } if url.as_str().ends_with("/one")));
    assert!(matches!(forward, BrowserEvent::NavigationStarted { url, .. } if url.as_str().ends_with("/two")));
}

#[test]
fn restored_page_can_reload_its_current_url() {
    let mut session = Session::new();
    let page_id = new_page_id();
    session.restore_page(page_id.clone(), parse_url("https://example.com/restored"));
    let reload = session.handle(BrowserCommand::Reload { page_id });
    assert!(matches!(reload, BrowserEvent::NavigationStarted { url, .. } if url.as_str().ends_with("/restored")));
}

#[test]
fn final_redirect_url_replaces_current_history_entry() {
    let mut session = Session::new();
    let page_id = new_page_id();
    session.open_page(page_id.clone());
    let requested = parse_url("https://example.test/old");
    let final_url = parse_url("https://example.test/new");
    let started = session.handle(BrowserCommand::Navigate { page_id: page_id.clone(), url: requested });
    let BrowserEvent::NavigationStarted { navigation_id, .. } = started else {
        panic!("navigation should start");
    };
    assert!(session.commit_final_url(&page_id, navigation_id, final_url.clone()));
    match session.handle(BrowserCommand::Reload { page_id: page_id.clone() }) {
        BrowserEvent::NavigationStarted { page_id: reloaded, navigation_id: next, url } => {
            assert_eq!(reloaded, page_id);
            assert_eq!(next, navigation_id.saturating_next());
            assert_eq!(url, final_url);
        }
        other => panic!("unexpected event {other:?}"),
    }
}

#[test]
fn history_availability_tracks_the_cursor() {
    let mut session = Session::new();
    let page_id = new_page_id();
    assert!(!session.can_go_back(&page_id));
    assert!(!session.can_go_forward(&page_id));

    for url in ["https://example.com/one", "https://example.com/two"] {
        let _ = session.handle(BrowserCommand::Navigate { page_id: page_id.clone(), url: parse_url(url) });
    }
    assert!(session.can_go_back(&page_id));
    assert!(!session.can_go_forward(&page_id));

    let _ = session.handle(BrowserCommand::Back { page_id: page_id.clone() });
    assert!(!session.can_go_back(&page_id));
    assert!(session.can_go_forward(&page_id));
}

#[test]
fn stop_invalidates_the_active_navigation() {
    let mut session = Session::new();
    let page_id = new_page_id();
    let started = session.handle(BrowserCommand::Navigate { page_id: page_id.clone(), url: parse_url("https://example.com/slow") });
    let BrowserEvent::NavigationStarted { navigation_id, .. } = started else {
        panic!("navigation should start");
    };
    let stopped = session.handle(BrowserCommand::Stop { page_id: page_id.clone() });
    assert!(matches!(
        stopped,
        BrowserEvent::LoadStageChanged { navigation_id: stopped_id, stage: LoadStage::Cancelled, .. }
            if stopped_id == navigation_id
    ));
    assert!(!session.accepts(&page_id, navigation_id));
}

#[test]
fn a_new_navigation_drops_forward_history() {
    let mut session = Session::new();
    let page_id = new_page_id();
    for url in ["https://example.com/one", "https://example.com/two"] {
        let _ = session.handle(BrowserCommand::Navigate { page_id: page_id.clone(), url: parse_url(url) });
    }
    let _ = session.handle(BrowserCommand::Back { page_id: page_id.clone() });
    let _ = session.handle(BrowserCommand::Navigate { page_id: page_id.clone(), url: parse_url("https://example.com/three") });
    assert!(!session.can_go_forward(&page_id));
    let back = session.handle(BrowserCommand::Back { page_id: page_id.clone() });
    assert!(matches!(back, BrowserEvent::NavigationStarted { url, .. } if url.ends_with("/one")));
}

#[test]
fn commands_for_unknown_pages_are_ignored() {
    let mut session = Session::new();
    let page_id = new_page_id();
    assert!(matches!(session.handle(BrowserCommand::Back { page_id: page_id.clone() }), BrowserEvent::Ignored));
    assert!(matches!(session.handle(BrowserCommand::Reload { page_id: page_id.clone() }), BrowserEvent::Ignored));
    assert!(session.current_url(&page_id).is_none());
}

#[test]
fn a_started_navigation_is_made_for_the_previous_top_level_document() {
    let page_id = new_page_id();
    let event = BrowserEvent::NavigationStarted {
        page_id: page_id.clone(),
        navigation_id: NavigationId::zero().saturating_next(),
        url: "https://example.com/next".to_owned(),
    };
    let pending = pending_navigation(event, Some("https://example.com/current".to_owned())).unwrap();
    assert_eq!(pending.url().as_str(), "https://example.com/next");
    assert_eq!(pending.top_level_url().as_str(), "https://example.com/current");
    assert_eq!(pending.navigation_id(), NavigationId::zero().saturating_next());
    assert_eq!(pending.page_id(), &page_id);

    let first = BrowserEvent::NavigationStarted {
        page_id,
        navigation_id: NavigationId::zero(),
        url: "https://example.com/first".to_owned(),
    };
    let pending = pending_navigation(first, None).unwrap();
    assert_eq!(pending.top_level_url().as_str(), "https://example.com/first");
    assert!(matches!(pending_navigation(BrowserEvent::Ignored, None), Err(NavigationStartError::Ignored)));
}
