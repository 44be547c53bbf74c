use archetype_browser::broker::{
    check_frame, check_viewport, document_text, origin_rule, resource_name, resource_urls, BrokerError,
    BrokerRequest, OriginRule, ResourceBroker, RESOURCE_BYTE_LIMIT, TOTAL_RESOURCE_BYTE_LIMIT,
};
use archetype_browser::dom::Document;
use archetype_browser::html::{document_from_tree, RawNode};
use archetype_browser::net::{LoadError, ResponseBytes};
use archetype_browser::protocol::{ResourceKind, MAX_FRAME_BODY_BYTES};
use archetype_browser::types::{NavigationId, PageId};
use archetype_browser::url::WebUrl;

fn url(value: &str) -> WebUrl {
    WebUrl::parse(value).unwrap()
}

fn element(name: &str, attributes: &[(&str, &str)]) -> RawNode {
    RawNode::Element(
        name.to_owned(),
        attributes.iter().map(|(n, v)| ((*n).to_owned(), (*v).to_owned())).collect(),
        Vec::new(),
    )
}

fn document(children: Vec<RawNode>) -> Document {
    document_from_tree(&vec![RawNode::Element("html".to_owned(), Vec::new(), children)])
}

fn response(final_url: &str, body: &[u8]) -> ResponseBytes {
    ResponseBytes { final_url: url(final_url), content_type: None, body: body.to_vec() }
}

#[test]
fn finds_stylesheets_and_images_in_document_order() {
    let doc = document(vec![
        element("link", &[("rel", "alternate stylesheet"), ("href", "a.css")]),
        element("img", &[("src", "pics/b.png")]),
        element("link", &[("rel", "icon"), ("href", "icon.png")]),
        element("img", &[("src", "http://[bad")]),
        element("img", &[("alt", "no source")]),
    ]);
    let (found, diagnostics) = resource_urls(&doc, &url("https://example.test/docs/index.html"));
    let found: Vec<(ResourceKind, String)> = found.into_iter().map(|(k, u)| (k, u.to_string())).collect();
    assert_eq!(
        found,
        vec![
            (ResourceKind::Stylesheet, "https://example.test/docs/a.css".to_owned()),
            (ResourceKind::Image, "https://example.test/docs/pics/b.png".to_owned()),
        ]
    );
    assert_eq!(diagnostics, vec!["ignored image with invalid URL: http://[bad".to_owned()]);
}

#[test]
fn brokers_each_resource_once_within_its_origin_and_budget() {
    let base = url("https://example.test/index.html");
    let candidates = vec![
        (ResourceKind::Stylesheet, url("https://example.test/a.css")),
        (ResourceKind::Stylesheet, url("https://example.test/a.css")),
        (ResourceKind::Image, url("https://cdn.test/b.png")),
        (ResourceKind::Image, url("https://example.test/c.png")),
        (ResourceKind::Image, url("https://example.test/d.png")),
    ];
    let mut broker = ResourceBroker::new(base.duplicate(), candidates, Vec::new());
    let mut loaded = Vec::new();
    while let Some((kind, resource)) = broker.next_candidate() {
        let same = origin_rule(&base, &resource) == OriginRule::Same;
        let Some(limit) = broker.grant(kind, &resource, same) else { continue };
        let outcome = match resource.as_str() {
            "https://example.test/a.css" => Ok(response("https://example.test/a.css", b"p{}")),
            "https://example.test/c.png" => Ok(response("https://other.test/c.png", b"png")),
            _ => Err(LoadError::ResourceTooLarge { limit }),
        };
        let final_same = match &outcome {
            Ok(r) => origin_rule(&base, &r.final_url) == OriginRule::Same,
            Err(_) => true,
        };
        loaded.push(resource.to_string());
        broker.accept(kind, &resource, outcome, final_same, limit);
    }
    assert_eq!(loaded, ["https://example.test/a.css", "https://example.test/c.png", "https://example.test/d.png"]);

    let request = BrokerRequest {
        page_id: PageId::new("page"),
        navigation_id: NavigationId::zero(),
        url: url("https://example.test/index.html"),
        viewport_width_px: 800,
    };
    let document = broker.finish(&request, "<p>x</p>".to_owned());
    assert_eq!(document.resources.len(), 1);
    assert_eq!(document.resources[0].body.as_slice(), b"p{}");
    assert_eq!(
        document.broker_diagnostics,
        vec![
            "ignored cross-origin image: https://cdn.test/b.png".to_owned(),
            "ignored image redirected across origins: https://example.test/c.png".to_owned(),
            format!("could not load image https://example.test/d.png: resource exceeds {RESOURCE_BYTE_LIMIT} bytes"),
        ]
    );
}

#[test]
fn the_budget_is_shared_by_all_resources() {
    let base = url("https://example.test/");
    let big = url("https://example.test/big.png");
    let mut broker = ResourceBroker::new(base, Vec::new(), Vec::new());
    let limit = broker.grant(ResourceKind::Image, &big, true).unwrap();
    assert_eq!(limit, RESOURCE_BYTE_LIMIT);
    broker.accept(ResourceKind::Image, &big, Ok(response("https://example.test/big.png", &vec![0; limit])), true, limit);
    let second = broker.grant(ResourceKind::Image, &big, true).unwrap();
    assert_eq!(second, TOTAL_RESOURCE_BYTE_LIMIT - RESOURCE_BYTE_LIMIT);
    broker.accept(ResourceKind::Image, &big, Ok(response("https://example.test/big.png", &vec![0; second])), true, second);
    assert_eq!(broker.grant(ResourceKind::Stylesheet, &big, true), None);
}

#[test]
fn file_documents_need_a_directory_check_and_others_stay_cross_origin() {
    let file = url("file:///site/index.html");
    assert_eq!(origin_rule(&file, &url("file:///site/a.png")), OriginRule::DirectoryScope);
    assert_eq!(origin_rule(&file, &url("https://example.test/a.png")), OriginRule::Cross);
    assert_eq!(origin_rule(&url("https://example.test/"), &url("https://example.test:8443/a.png")), OriginRule::Cross);
    assert_eq!(origin_rule(&url("about:blank"), &url("about:blank")), OriginRule::Cross);
}

#[test]
fn documents_must_be_utf8_fit_a_frame_and_have_a_viewport() {
    assert!(matches!(check_viewport(0), Err(BrokerError::InvalidViewport)));
    assert!(matches!(check_viewport(65_536), Err(BrokerError::InvalidViewport)));
    assert!(check_viewport(65_535).is_ok());
    assert_eq!(document_text(&response("https://example.test/", "héllo".as_bytes())).unwrap(), "héllo");
    assert!(matches!(
        document_text(&response("https://example.test/x", &[0xff])),
        Err(BrokerError::DocumentEncoding { url }) if url == "https://example.test/x"
    ));
    assert!(check_frame(&vec![b'x'; MAX_FRAME_BODY_BYTES]).is_ok());
    match check_frame(&vec![b'x'; MAX_FRAME_BODY_BYTES + 1]) {
        Err(BrokerError::Frame(message)) => assert_eq!(
            message,
            format!("protocol frame body is {} bytes, exceeding the {}-byte limit", MAX_FRAME_BODY_BYTES + 1, MAX_FRAME_BODY_BYTES)
        ),
        other => panic!("unexpected {other:?}"),
    }
    assert_eq!(resource_name(ResourceKind::Stylesheet), "stylesheet");
}
