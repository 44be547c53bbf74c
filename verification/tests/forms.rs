use archetype_browser::forms::{ControlId, ControlKind, FormControl, FormError, FormMethod, FormState, SelectOption};
use archetype_browser::url::WebUrl;

fn control(id: u32, name: &str, kind: ControlKind, value: &str, checked: bool) -> FormControl {
    FormControl {
        id: ControlId(id),
        name: Some(name.to_owned()),
        kind,
        value: value.to_owned(),
        checked,
        options: Vec::new(),
        selected_index: None,
    }
}

fn form(method: FormMethod) -> FormState {
    FormState::new(
        WebUrl::parse("https://example.com/search?old=ignored").unwrap(),
        method,
        vec![
            control(1, "query", ControlKind::Text, "rust browser", false),
            control(2, "remember", ControlKind::Checkbox, "yes", true),
            control(3, "ignored", ControlKind::Checkbox, "no", false),
            control(4, "go", ControlKind::Submit, "Search", false),
        ],
    )
}

#[test]
fn serializes_only_successful_controls_for_get() {
    let submission = form(FormMethod::Get).submission(Some(ControlId(4))).unwrap();
    assert_eq!(submission.target.as_str(), "https://example.com/search?query=rust+browser&remember=yes&go=Search");
    assert_eq!(submission.encoded, "query=rust+browser&remember=yes&go=Search");
}

#[test]
fn keeps_post_body_out_of_the_target_url() {
    let submission = form(FormMethod::Post).submission(None).unwrap();
    assert_eq!(submission.target.as_str(), "https://example.com/search?old=ignored");
    assert_eq!(submission.encoded, "query=rust+browser&remember=yes");
}

#[test]
fn updates_text_radio_and_select_state() {
    let mut state = form(FormMethod::Post);
    state.controls.extend([
        control(5, "mode", ControlKind::Radio, "one", true),
        control(6, "mode", ControlKind::Radio, "two", false),
        FormControl {
            id: ControlId(7),
            name: Some("size".to_owned()),
            kind: ControlKind::Select,
            value: String::new(),
            checked: false,
            options: vec![
                SelectOption { value: "s".to_owned(), label: "Small".to_owned() },
                SelectOption { value: "l".to_owned(), label: "Large".to_owned() },
            ],
            selected_index: Some(0),
        },
    ]);
    state.set_text(ControlId(1), "updated".to_owned()).unwrap();
    state.set_checked(ControlId(6), true).unwrap();
    state.select(ControlId(7), 1).unwrap();
    let submission = state.submission(None).unwrap();
    assert!(state.is_dirty());
    assert!(submission.encoded.contains("query=updated"));
    assert!(submission.encoded.contains("mode=two"));
    assert!(!submission.encoded.contains("mode=one"));
    assert!(submission.encoded.contains("size=l"));
}

#[test]
fn editing_a_missing_control_is_refused() {
    let mut state = form(FormMethod::Post);
    assert!(matches!(state.set_text(ControlId(99), "x".to_owned()), Err(FormError::MissingControl)));
    assert!(!state.is_dirty());
}

#[test]
fn reserved_characters_are_percent_encoded() {
    let state = FormState::new(
        WebUrl::parse("https://example.com/find").unwrap(),
        FormMethod::Post,
        vec![control(1, "q", ControlKind::Text, "a&b=c/é", false)],
    );
    assert_eq!(state.submission(None).unwrap().encoded, "q=a%26b%3Dc%2F%C3%A9");
}
