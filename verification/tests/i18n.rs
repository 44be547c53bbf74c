use archetype_browser::i18n::Language;

#[test]
fn chinese_locales_select_chinese() {
    for locale in ["zh-CN", "zh-Hans", "zh-TW", "ZH_hant"] {
        assert_eq!(Language::from_locale(Some(locale)), Language::Chinese);
    }
}

#[test]
fn non_chinese_and_missing_locales_select_english() {
    for locale in [Some("en-US"), Some("ja-JP"), Some("fr"), None] {
        assert_eq!(Language::from_locale(locale), Language::English);
    }
}

#[test]
fn exposes_localized_static_and_dynamic_copy() {
    assert_eq!(Language::Chinese.address_placeholder(), "搜索或输入地址");
    assert_eq!(Language::English.address_placeholder(), "Search or enter an address");
    assert_eq!(Language::Chinese.new_space_name(3), "空间 3");
    assert_eq!(Language::English.new_space_name(3), "Space 3");
    assert_eq!(Language::Chinese.save_to_this_folder(), "保存到此文件夹");
    assert_eq!(Language::English.save_to_this_folder(), "Save to this folder");
    assert_eq!(Language::Chinese.history(), "历史记录");
    assert_eq!(Language::English.search_history(), "Search history");
    assert_eq!(Language::Chinese.about_archetype(), "关于 Archetype");
}

#[test]
fn folder_names_count_in_both_languages() {
    assert_eq!(Language::English.new_folder_name(12), "Folder 12");
    assert_eq!(Language::Chinese.new_folder_name(0), "文件夹 0");
}

#[test]
fn an_empty_locale_selects_english() {
    assert_eq!(Language::from_locale(Some("")), Language::English);
    assert_eq!(Language::from_locale(Some("z")), Language::English);
}
