use std::path::PathBuf;

use archetype_browser::i18n::Language;
use archetype_browser::net::LoadErrorKind;
use archetype_browser::shell::{
    adjacent_page_id_after_close, blank_url, history_entry_matches, initial_selection, history_url, is_blank_page,
    is_history_page, is_internal_page, is_settings_page, load_error_title, navigation_error_title,
    parse_address, settings_section, should_hibernate_on_switch, tab_icon_mode, tab_label, LocalFile,
    RenderErrorKind, SettingsSection, TabIconMode, ABOUT_BLANK, ARCHETYPE_SETTINGS_ABOUT,
    ARCHETYPE_SETTINGS_APPEARANCE,
};
use archetype_browser::store::{HistoryEntry, Page};
use archetype_browser::url::WebUrl;

fn test_page(id: &str) -> Page {
    Page { id: id.to_owned(), url: String::new(), title: String::new(), position: 0 }
}

/// What the file system says of the trimmed address taken as a path.
fn local_file_for(address: &str) -> LocalFile {
    match PathBuf::from(address.trim()).canonicalize() {
        Err(_) => LocalFile::Missing,
        Ok(path) => match url::Url::from_file_path(path) {
            Ok(url) => LocalFile::Found(WebUrl::parse(url.as_str()).unwrap()),
            Err(()) => LocalFile::Unconvertible,
        },
    }
}

fn parse(address: &str, language: Language) -> Result<WebUrl, String> {
    parse_address(address, language, local_file_for(address))
}

#[test]
fn navigation_errors_have_specific_localized_titles() {
    assert_eq!(load_error_title(Language::English, LoadErrorKind::Tls), "Certificate validation failed");
    assert_eq!(load_error_title(Language::Chinese, LoadErrorKind::Tls), "证书验证失败");
    assert_eq!(
        navigation_error_title(Language::English, None, Some(RenderErrorKind::Parse)),
        "Document parsing failed"
    );
    assert_eq!(navigation_error_title(Language::Chinese, None, Some(RenderErrorKind::Render)), "渲染失败");
}

#[test]
fn address_parser_adds_https_to_hostnames() {
    assert_eq!(parse("baidu.com", Language::English).unwrap().as_str(), "https://baidu.com/");
    assert_eq!(parse("localhost:8080", Language::English).unwrap().as_str(), "https://localhost:8080/");
}

#[test]
fn address_parser_preserves_explicit_urls() {
    assert_eq!(parse(" http://example.com/docs ", Language::English).unwrap().as_str(), "http://example.com/docs");
}

#[test]
fn blank_page_is_explicit_and_does_not_require_loading() {
    let mut page = test_page("blank");
    page.url = blank_url().unwrap().to_string();

    assert!(is_blank_page(&page));
    assert_eq!(page.url, ABOUT_BLANK);
}

#[test]
fn history_page_is_internal_and_filterable() {
    let mut page = test_page("history");
    page.url = history_url().unwrap().to_string();
    let entry = HistoryEntry {
        id: "visit".to_owned(),
        url: "https://example.com/docs".to_owned(),
        title: "Rust documentation".to_owned(),
        visited_at: 0,
    };

    assert!(is_history_page(&page));
    assert!(is_internal_page(&page));
    assert!(history_entry_matches(&entry, "rust"));
    assert!(history_entry_matches(&entry, "EXAMPLE.COM"));
    assert!(history_entry_matches(&entry, ""));
    assert!(!history_entry_matches(&entry, "browser"));
}

#[test]
fn settings_routes_map_to_trusted_internal_sections() {
    let mut page = test_page("settings");
    page.url = ARCHETYPE_SETTINGS_APPEARANCE.to_owned();
    assert_eq!(settings_section(&page), Some(SettingsSection::Appearance));
    assert!(is_settings_page(&page));
    assert!(is_internal_page(&page));

    page.url = ARCHETYPE_SETTINGS_ABOUT.to_owned();
    assert_eq!(settings_section(&page), Some(SettingsSection::About));

    page.url = "archetype://settings/unknown".to_owned();
    assert_eq!(settings_section(&page), None);
    assert!(is_internal_page(&page));
}

#[test]
fn two_tab_switch_keeps_rendered_pages_resident() {
    assert!(!should_hibernate_on_switch(Some("first"), "second", 2));
    assert!(!should_hibernate_on_switch(Some("first"), "first", 8));
    assert!(should_hibernate_on_switch(Some("first"), "ninth", 8));
}

#[test]
fn tab_icon_mode_combines_loading_and_favicon_state() {
    assert_eq!(tab_icon_mode(false, false), TabIconMode::Default);
    assert_eq!(tab_icon_mode(false, true), TabIconMode::Favicon);
    assert_eq!(tab_icon_mode(true, false), TabIconMode::Loading);
    assert_eq!(tab_icon_mode(true, true), TabIconMode::Loading);
}

#[test]
fn address_parser_prefers_existing_local_files() {
    let path = PathBuf::from("/").canonicalize().unwrap();
    let parsed = parse(path.to_str().unwrap(), Language::English).unwrap();
    assert_eq!(url::Url::parse(parsed.as_str()).unwrap().to_file_path().unwrap(), path);
}

#[test]
fn address_parser_rejects_empty_input() {
    assert_eq!(parse("  ", Language::English).unwrap_err(), "Address cannot be empty");
    assert_eq!(parse("  ", Language::Chinese).unwrap_err(), "地址不能为空");
}

#[test]
fn closing_selected_tab_prefers_right_then_left_neighbor() {
    let pages = [test_page("a"), test_page("b"), test_page("c")];
    assert_eq!(adjacent_page_id_after_close(&pages, 1).as_deref(), Some("c"));
    assert_eq!(adjacent_page_id_after_close(&pages, 2).as_deref(), Some("b"));
    assert_eq!(adjacent_page_id_after_close(&pages[..1], 0), None);
}

#[test]
fn address_parser_reports_unparsable_addresses_and_paths() {
    assert_eq!(
        parse_address("no spaces allowed", Language::English, LocalFile::Missing).unwrap_err(),
        "Invalid address or missing path: no spaces allowed"
    );
    assert_eq!(
        parse_address("relative/path", Language::English, LocalFile::Unconvertible).unwrap_err(),
        "Path cannot be represented as a file URL"
    );
    assert!(parse_address("http://[::1", Language::English, LocalFile::Missing)
        .unwrap_err()
        .starts_with("Invalid URL: "));
}

#[test]
fn closing_the_only_or_a_missing_index_selects_nothing() {
    let pages = [test_page("a"), test_page("b")];
    assert_eq!(adjacent_page_id_after_close(&pages, 0).as_deref(), Some("b"));
    assert_eq!(adjacent_page_id_after_close(&pages, 5), None);
}

#[test]
fn history_links_use_internal_scheme() {
    let url = history_url().unwrap();
    assert_eq!(url.as_str(), "archetype://history");
}

#[test]
fn tab_labels_name_internal_pages_and_fall_back_to_the_url() {
    let mut page = test_page("a");
    page.url = "archetype://history".to_owned();
    assert_eq!(tab_label(Language::English, &page), "History");
    assert_eq!(tab_label(Language::Chinese, &page), "历史记录");
    page.url = ARCHETYPE_SETTINGS_ABOUT.to_owned();
    assert_eq!(tab_label(Language::English, &page), "Settings");
    page.url = "https://example.com/".to_owned();
    assert_eq!(tab_label(Language::English, &page), "https://example.com/");
    page.title = "Example".to_owned();
    assert_eq!(tab_label(Language::English, &page), "Example");
}

#[test]
fn initial_selection_keeps_a_saved_id_that_still_exists() {
    let ids = vec!["a".to_owned(), "b".to_owned()];
    assert_eq!(initial_selection(Some("b"), &ids), Some("b".to_owned()));
    assert_eq!(initial_selection(Some("gone"), &ids), Some("a".to_owned()));
    assert_eq!(initial_selection(None, &ids), Some("a".to_owned()));
    assert_eq!(initial_selection(Some("a"), &[]), None);
}

#[test]
fn history_search_ignores_ascii_case_and_surrounding_space() {
    let entry = HistoryEntry {
        id: "h".to_owned(),
        url: "https://Docs.Example/Guide".to_owned(),
        title: "The GUIDE".to_owned(),
        visited_at: 0,
    };
    assert!(history_entry_matches(&entry, "  guide  "));
    assert!(history_entry_matches(&entry, "DOCS.EXAMPLE"));
    assert!(!history_entry_matches(&entry, "manual"));
}
