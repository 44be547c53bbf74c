use archetype_browser::css::{first_family_of_tokens, first_font_family, resolve_variables, supported_property, CssTokenKind};

fn properties(pairs: &[(&str, &str)]) -> Vec<(String, String)> {
    let mut sorted: Vec<(String, String)> =
        pairs.iter().map(|(name, value)| ((*name).to_owned(), (*value).to_owned())).collect();
    sorted.sort();
    sorted
}

#[test]
fn resolves_nested_variables_fallbacks_and_cycles() {
    let properties = properties(&[
        ("--space", "8px"),
        ("--double", "calc(var(--space) * 2)"),
        ("--cycle", "var(--cycle)"),
    ]);
    assert_eq!(resolve_variables("var(--double)", &properties).as_deref(), Some("calc(8px * 2)"));
    assert_eq!(
        resolve_variables("var(--missing, rgb(1, 2, 3))", &properties).as_deref(),
        Some("rgb(1, 2, 3)")
    );
    assert_eq!(resolve_variables("var(--cycle, blue)", &properties).as_deref(), Some("blue"));
    assert!(resolve_variables("var(--missing)", &properties).is_none());
}

#[test]
fn parses_first_quoted_or_unquoted_font_family() {
    assert_eq!(first_font_family(r#""Helvetica Neue", sans-serif"#).as_deref(), Some("Helvetica Neue"));
    assert_eq!(first_font_family("Helvetica Neue, sans-serif").as_deref(), Some("Helvetica Neue"));
}

#[test]
fn rejects_invalid_first_font_family() {
    assert_eq!(first_font_family("var(--font), sans-serif"), None);
    assert_eq!(first_font_family(r#""Helvetica" Neue, sans-serif"#), None);
    assert_eq!(first_font_family("  "), None);
}

#[test]
fn text_without_references_is_kept() {
    let properties = properties(&[]);
    assert_eq!(resolve_variables("1px solid red", &properties).as_deref(), Some("1px solid red"));
}

#[test]
fn a_single_family_and_an_empty_quoted_name() {
    assert_eq!(first_font_family("serif").as_deref(), Some("serif"));
    assert_eq!(first_font_family("\"\", serif"), None);
}

#[test]
fn custom_and_listed_properties_are_supported() {
    assert!(supported_property("--anything"));
    assert!(supported_property("color"));
    assert!(!supported_property("float-left"));
}

#[test]
fn first_family_is_read_from_token_kinds() {
    let words = vec![
        CssTokenKind::WhiteSpace,
        CssTokenKind::Ident("Noto".to_owned()),
        CssTokenKind::WhiteSpace,
        CssTokenKind::Ident("Sans".to_owned()),
        CssTokenKind::Comma,
        CssTokenKind::Ident("serif".to_owned()),
    ];
    assert_eq!(first_family_of_tokens(&words).as_deref(), Some("Noto Sans"));
    let quoted = vec![CssTokenKind::Quoted("Fira Code".to_owned()), CssTokenKind::Comma];
    assert_eq!(first_family_of_tokens(&quoted).as_deref(), Some("Fira Code"));
    let mixed = vec![CssTokenKind::Ident("a".to_owned()), CssTokenKind::Quoted("b".to_owned())];
    assert_eq!(first_family_of_tokens(&mixed), None);
    assert_eq!(first_family_of_tokens(&vec![CssTokenKind::Quoted(String::new())]), None);
    assert_eq!(first_family_of_tokens(&vec![CssTokenKind::Other]), None);
}
