use archetype_browser::cascade::{cascade, CascadeRule};
use archetype_browser::css::Declaration;
use archetype_browser::dom::{Document, ElementData, NodeId, NodeKind};
use archetype_browser::text::parse_i32;
use archetype_browser::style::{
    apply_custom_properties, keyword_update, outranks, Display, FlexAlign, FontWeight, KeywordUpdate, Overflow, Position, resolve_declarations, selector_matches, specificity, split_selector, CascadeWinner,
    Specificity, CUSTOM_PROPERTY_LIMIT,
};

fn element(name: &str, attributes: &[(&str, &str)]) -> NodeKind {
    NodeKind::Element(ElementData {
        name: name.to_owned(),
        attributes: attributes.iter().map(|(n, v)| ((*n).to_owned(), (*v).to_owned())).collect(),
    })
}

/// `<main id=app class="wide dark"><section class=card><p class=note>` with a
/// text node in the paragraph.
fn document() -> (Document, NodeId, NodeId, NodeId) {
    let mut document = Document::new();
    let root = document.root();
    let main = document.append(root, element("main", &[("id", "app"), ("class", "wide dark")])).unwrap();
    let section = document.append(main, element("section", &[("class", "card")])).unwrap();
    let paragraph = document.append(section, element("p", &[("class", "note")])).unwrap();
    document.append(paragraph, NodeKind::Text("hello".to_owned())).unwrap();
    (document, main, section, paragraph)
}

fn winner(important: bool, selector: &str, source_order: usize) -> CascadeWinner {
    CascadeWinner {
        important,
        specificity: specificity(selector),
        source_order,
        declaration_order: 0,
        value: String::new(),
    }
}

#[test]
fn descendant_child_and_compound_selectors_match() {
    let (document, main, section, paragraph) = document();
    assert!(selector_matches(&document, paragraph, "main p"));
    assert!(selector_matches(&document, paragraph, "section > p.note"));
    assert!(!selector_matches(&document, paragraph, "main > p"));
    assert!(selector_matches(&document, main, "main#app.wide.dark"));
    assert!(!selector_matches(&document, main, "main.light"));
    assert!(selector_matches(&document, section, "#app > .card"));
    assert!(selector_matches(&document, section, "*"));
}

#[test]
fn id_rule_wins_over_type_rule() {
    assert_eq!(specificity("#app p.note"), Specificity { ids: 1, classes: 1, types: 1 });
    assert_eq!(specificity("main section > p"), Specificity { ids: 0, classes: 0, types: 3 });
    assert!(outranks(&winner(false, "#app", 0), &winner(false, "main p", 5)));
    assert!(!outranks(&winner(false, "p", 0), &winner(false, "p", 1)));
    assert!(outranks(&winner(true, "p", 0), &winner(false, "#app", 1)));
}

#[test]
fn selectors_split_into_compounds_and_child_combinators() {
    assert_eq!(split_selector(" main  >p.note em"), vec!["main", ">", "p.note", "em"]);
}

fn declaration(name: &str, value: &str) -> (String, CascadeWinner) {
    let mut winner = winner(false, "p", 0);
    winner.value = value.to_owned();
    (name.to_owned(), winner)
}

fn pairs(entries: &[(&str, &str)]) -> Vec<(String, String)> {
    entries.iter().map(|(n, v)| ((*n).to_owned(), (*v).to_owned())).collect()
}

#[test]
fn custom_properties_are_set_in_place_or_added() {
    let mut properties = pairs(&[("--a", "1")]);
    let declarations = vec![declaration("--a", "2"), declaration("color", "red"), declaration("--b", "3")];
    apply_custom_properties(&mut properties, &declarations);
    assert_eq!(properties, pairs(&[("--a", "2"), ("--b", "3")]));
}

#[test]
fn custom_properties_stop_growing_at_the_limit() {
    let mut properties: Vec<(String, String)> =
        (0..CUSTOM_PROPERTY_LIMIT).map(|i| (format!("--p{i}"), "0".to_owned())).collect();
    let declarations = vec![declaration("--new", "1"), declaration("--p7", "9")];
    apply_custom_properties(&mut properties, &declarations);
    assert_eq!(properties.len(), CUSTOM_PROPERTY_LIMIT);
    assert!(!properties.iter().any(|(name, _)| name == "--new"));
    assert_eq!(properties[7], ("--p7".to_owned(), "9".to_owned()));
}

#[test]
fn declarations_resolve_their_variables() {
    let properties = pairs(&[("--gap", "4px")]);
    let declarations =
        vec![declaration("--gap", "8px"), declaration("margin", "var(--gap)"), declaration("padding", "var(--none)")];
    let resolved = resolve_declarations(&properties, &declarations);
    assert_eq!(resolved.len(), 1);
    assert_eq!(resolved[0].0, "margin");
    assert_eq!(resolved[0].1.value, "4px");
}

fn cascade_rule(selector: &str, declarations: &[(&str, &str, bool)], source_order: usize, applies: bool) -> CascadeRule {
    CascadeRule {
        selector: selector.to_owned(),
        declarations: declarations
            .iter()
            .map(|(name, value, important)| Declaration {
                name: (*name).to_owned(),
                value: (*value).to_owned(),
                important: *important,
            })
            .collect(),
        source_order,
        applies,
    }
}

fn winning_values(winners: &[(String, CascadeWinner)]) -> Vec<(String, String)> {
    winners.iter().map(|(name, winner)| (name.clone(), winner.value.clone())).collect()
}

#[test]
fn cascade_picks_the_highest_ranked_declaration_per_property() {
    let (document, _main, _section, paragraph) = document();
    let rules = vec![
        cascade_rule("p", &[("color", "red", false), ("margin", "1px", false)], 0, true),
        cascade_rule(".note", &[("color", "blue", false)], 1, true),
        cascade_rule("#app p", &[("color", "green", false)], 2, true),
        cascade_rule("p", &[("color", "black", true)], 3, false),
        cascade_rule("section > p", &[("margin", "2px", false), ("--x", "1", false)], 4, true),
        cascade_rule("div", &[("color", "pink", true)], 5, true),
    ];
    let winners = cascade(&document, paragraph, &rules);
    assert_eq!(winning_values(&winners), pairs(&[("--x", "1"), ("color", "green"), ("margin", "2px")]));
}

#[test]
fn important_declarations_win_and_later_rules_break_ties() {
    let (document, _main, _section, paragraph) = document();
    let rules = vec![
        cascade_rule("p", &[("color", "red", true)], 0, true),
        cascade_rule("#app .note", &[("color", "blue", false)], 1, true),
        cascade_rule("p", &[("width", "1px", false)], 2, true),
        cascade_rule("p", &[("width", "2px", false)], 3, true),
    ];
    let winners = cascade(&document, paragraph, &rules);
    assert_eq!(winning_values(&winners), pairs(&[("color", "red"), ("width", "2px")]));
    assert!(cascade(&document, paragraph, &Vec::new()).is_empty());
}

#[test]
fn keyword_declarations_update_the_computed_style() {
    assert_eq!(keyword_update("display", "none"), Some(KeywordUpdate::Display(Display::Hidden)));
    assert_eq!(keyword_update("display", "grid"), Some(KeywordUpdate::Display(Display::Inline)));
    assert_eq!(keyword_update("align-items", "flex-end"), Some(KeywordUpdate::AlignItems(FlexAlign::End)));
    assert_eq!(keyword_update("font-weight", "700"), Some(KeywordUpdate::FontWeight(FontWeight::Bold)));
    assert_eq!(keyword_update("position", "sticky"), Some(KeywordUpdate::Position(Position::Static)));
    assert_eq!(keyword_update("overflow", "hidden"), Some(KeywordUpdate::Overflow(Overflow::Hidden)));
    assert_eq!(keyword_update("overflow", "scroll"), None);
    assert_eq!(keyword_update("z-index", "auto"), Some(KeywordUpdate::ZIndex(0)));
    assert_eq!(keyword_update("z-index", "-3"), Some(KeywordUpdate::ZIndex(-3)));
    assert_eq!(keyword_update("z-index", "1.5"), None);
    assert_eq!(keyword_update("order", "+2"), Some(KeywordUpdate::Order(2)));
    assert_eq!(keyword_update("flex-grow", "2"), None);
    assert_eq!(keyword_update("width", "10px"), None);
}

#[test]
fn integers_read_as_str_parse_reads_them() {
    assert_eq!(parse_i32("2147483647"), Some(i32::MAX));
    assert_eq!(parse_i32("-2147483648"), Some(i32::MIN));
    assert_eq!(parse_i32("2147483648"), None);
    assert_eq!(parse_i32("-0"), Some(0));
    assert_eq!(parse_i32("007"), Some(7));
    assert_eq!(parse_i32("+"), None);
    assert_eq!(parse_i32(""), None);
    assert_eq!(parse_i32("12a"), None);
    assert_eq!(parse_i32(" 1"), None);
}
