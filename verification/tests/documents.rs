use archetype_browser::dom::Document;
use archetype_browser::forms::{ControlKind, FormMethod};
use archetype_browser::html::{parse as parse_html, title};
use archetype_browser::page::{document_diagnostics, extract_forms, inline_css, link_targets, same_origin, stylesheet_urls};
use archetype_browser::url::WebUrl;

fn parse(source: &str) -> Document {
    parse_html(source)
}

fn url(value: &str) -> WebUrl {
    WebUrl::parse(value).unwrap()
}

#[test]
fn parses_title_and_text() {
    let document = parse("<!doctype html><title>Archetype</title><p>Hello <strong>world</strong></p>");
    assert_eq!(title(&document).as_deref(), Some("Archetype"));
    assert!(document.text_content(document.root()).contains("Hello world"));
}

#[test]
fn scripts_are_data_not_execution() {
    let document = parse("<script>window.bad = true</script><p>safe</p>");
    assert!(document.text_content(document.root()).contains("safe"));
}

#[test]
fn discovers_only_stylesheet_links() {
    let url = url("https://example.com/docs/index.html");
    let document = parse("<link rel='stylesheet' href='../style.css'><link rel='icon' href='icon.png'>");
    let found: Vec<String> = stylesheet_urls(&document, &url).iter().map(|u| u.as_str().to_owned()).collect();
    assert_eq!(found, vec!["https://example.com/style.css".to_owned()]);
}

#[test]
fn same_origin_includes_scheme_host_and_port() {
    let document = url("https://example.com/page");
    assert!(same_origin(&document, &url("https://example.com/style.css")));
    assert!(!same_origin(&document, &url("http://example.com/style.css")));
    assert!(!same_origin(&document, &url("https://cdn.example.com/style.css")));
}

#[test]
fn forms_read_from_markup_submit_their_successful_values() {
    let document = parse(
        "<form action='../submit' method='post'>
           <input name='user' value='Ada'>
           <input type='password' name='password'>
           <input type='checkbox' name='remember' value='yes' checked>
           <input type='radio' name='mode' value='one'>
           <input type='radio' name='mode' value='two' checked>
           <select name='size'><option value='s'>Small</option><option value='l' selected>Large</option></select>
           <button name='submit' value='go'>Send</button>
           <button type='button'>No action</button>
         </form>",
    );
    let forms = extract_forms(&document, &url("https://example.com/account/page"));
    assert_eq!(forms.len(), 1);
    let form = &forms[0];
    assert_eq!(form.action.as_str(), "https://example.com/submit");
    assert_eq!(form.method, FormMethod::Post);
    assert_eq!(form.controls.len(), 8);
    let submitter = form.controls.iter().find(|control| control.kind == ControlKind::Submit).unwrap().id;
    let submission = form.submission(Some(submitter)).unwrap();
    assert_eq!(submission.encoded, "user=Ada&password=&remember=yes&mode=two&size=l&submit=go");
}

#[test]
fn active_content_is_reported_as_ignored() {
    let document = parse("<script>1</script><script>2</script><button onclick='x()'>b</button><p>text</p>");
    let diagnostics = document_diagnostics(&document);
    assert_eq!(
        diagnostics,
        vec![
            "ignored 2 script element(s); JavaScript is disabled".to_owned(),
            "ignored 1 inline event attribute(s); JavaScript is disabled".to_owned(),
        ]
    );
}

#[test]
fn links_resolve_against_the_document_url() {
    let document = parse("<p><a href='next.html'><span>go</span></a></p>");
    let targets = link_targets(&document, &url("https://example.com/docs/index.html"));
    assert!(!targets.is_empty());
    assert!(targets.iter().all(|(_, target)| target == "https://example.com/docs/next.html"));
}

#[test]
fn style_elements_make_the_inline_stylesheet() {
    let document = parse("<style>p { color: red }</style><p>x</p><style>a{}</style>");
    assert_eq!(inline_css(&document), "p { color: red }\na{}\n");
}

#[test]
fn a_document_without_title_has_none() {
    let document = parse("<p>untitled</p>");
    assert_eq!(title(&document), None);
}

#[test]
fn a_walk_meets_each_node_once() {
    let document = parse("<div><p>a<b>b</b></p><p>c</p></div><span>d</span>");
    let mut walk = document.descendants(document.root());
    let mut seen = Vec::new();
    while let Some(node) = walk.next() {
        assert!(!seen.contains(&node.id));
        seen.push(node.id);
    }
    assert!(seen.len() >= 10);
}
