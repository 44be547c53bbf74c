use archetype_browser::protocol::{
    BrokeredResource, Capability, EncodedDisplayList, Envelope, Message, ProtocolLimits, Rejected, RejectionCode,
    Request, ResourceBytes, ResourceKind, Response, ServerHello,
};
use archetype_browser::supervisor::{
    authentication_outcome, client_hello, handshake_outcome, is_launch_authentication, launch_preamble,
    launch_token, queue_refusal, PendingRenders, ReaderEvent, Received, RuntimeProcessError, StaticDocument,
    LAUNCH_TOKEN_BYTES, MAXIMUM_PENDING_REQUESTS,
};
use archetype_browser::types::{NavigationId, PageId};

fn document(page: &str, resources: Vec<BrokeredResource>) -> StaticDocument {
    StaticDocument {
        page_id: PageId::new(page),
        navigation_id: NavigationId::zero().saturating_next(),
        url: "https://example.test/".to_owned(),
        html: "<p>hi</p>".to_owned(),
        viewport_width_px: 800,
        resources,
        broker_diagnostics: vec!["ignored cross-origin image: https://other.test/a.png".to_owned()],
    }
}

fn image(url: &str, body: &[u8]) -> BrokeredResource {
    BrokeredResource {
        requested_url: url.to_owned(),
        final_url: url.to_owned(),
        kind: ResourceKind::Image,
        body: ResourceBytes::new(body.to_vec()),
    }
}

fn server_hello(capabilities: Vec<Capability>) -> Received {
    Received::Event(ReaderEvent::Envelope(Envelope::v4(
        1,
        Message::ServerHello(ServerHello { selected_protocol_minor: 0, capabilities, limits: ProtocolLimits::default() }),
    )))
}

#[test]
fn the_child_must_echo_the_magic_and_token() {
    let token = launch_token().unwrap();
    assert_eq!(token.len(), LAUNCH_TOKEN_BYTES);
    let preamble = launch_preamble(&token);
    assert_eq!(&preamble[..4], b"ARUN");
    assert!(is_launch_authentication(&preamble, &token));
    let mut wrong = preamble.clone();
    wrong[5] ^= 1;
    assert!(!is_launch_authentication(&wrong, &token));
    assert!(!is_launch_authentication(&preamble[..35], &token));
}

#[test]
fn the_handshake_needs_authentication_then_the_required_capabilities() {
    assert!(authentication_outcome(Received::Event(ReaderEvent::Authenticated)).is_ok());
    assert_eq!(authentication_outcome(Received::TimedOut), Err(RuntimeProcessError::HandshakeTimeout));
    assert_eq!(
        authentication_outcome(Received::Event(ReaderEvent::Failed("eof".to_owned()))),
        Err(RuntimeProcessError::Protocol("eof".to_owned()))
    );

    let all = vec![Capability::static_document(), Capability::display_list_v1(), Capability::resource_broker_v1()];
    assert!(handshake_outcome(server_hello(all)).is_ok());
    assert_eq!(
        handshake_outcome(server_hello(vec![Capability::static_document()])),
        Err(RuntimeProcessError::MissingCapabilities)
    );
    let rejected = Received::Event(ReaderEvent::Envelope(Envelope::v4(
        1,
        Message::Rejected(Rejected { code: RejectionCode::IncompatibleMinor, message: "too new".to_owned() }),
    )));
    assert_eq!(handshake_outcome(rejected), Err(RuntimeProcessError::HandshakeRejected("too new".to_owned())));
    assert_eq!(handshake_outcome(Received::Disconnected), Err(RuntimeProcessError::RuntimeDisconnected));
    assert_eq!(handshake_outcome(Received::Event(ReaderEvent::Authenticated)), Err(RuntimeProcessError::UnexpectedResponse));
}

#[test]
fn the_client_hello_asks_for_the_current_version_only() {
    let hello = client_hello();
    assert_eq!(hello.request_id(), 1);
    let Message::ClientHello(hello) = hello.message() else { panic!("a client hello") };
    assert_eq!((hello.minimum_protocol_minor, hello.maximum_protocol_minor), (0, 0));
    let names: Vec<&str> = hello.capabilities.iter().map(|c| c.as_str()).collect();
    assert_eq!(names, ["cancellable_navigation", "display_list_v1", "resource_broker_v1", "static_document"]);
}

#[test]
fn a_rendered_answer_completes_its_request_once() {
    let mut pending = PendingRenders::new();
    let doc = document("page-1", vec![image("https://example.test/a.png", b"first"), image("https://example.test/a.png", b"second")]);
    let request = pending.admission(&doc).unwrap();
    assert_eq!(request.request_id(), 2);
    assert!(matches!(request.message(), Message::Request(Request::RenderDocument { viewport_width_px: 800, .. })));
    pending.record(doc, 1_000);
    assert_eq!(pending.len(), 1);

    let answer = Envelope::v4(
        2,
        Message::Response(Response::Rendered {
            page_id: PageId::new("page-1"),
            navigation_id: NavigationId::zero().saturating_next(),
            final_url: "https://example.test/".to_owned(),
            title: "Hi".to_owned(),
            display_list: EncodedDisplayList("{}".to_owned()),
            diagnostics: vec!["runtime note".to_owned()],
        }),
    );
    let (id, result) = pending.resolve(answer.clone()).unwrap();
    assert_eq!(id, 2);
    let page = result.unwrap();
    assert_eq!(page.diagnostics, ["ignored cross-origin image: https://other.test/a.png", "runtime note"]);
    assert_eq!(page.image_resources, vec![("https://example.test/a.png".to_owned(), b"second".to_vec())]);
    assert!(pending.resolve(answer).is_none());
}

#[test]
fn failures_and_mismatched_answers_are_reported() {
    let mut pending = PendingRenders::new();
    for page in ["a", "b"] {
        let doc = document(page, Vec::new());
        pending.admission(&doc).unwrap();
        pending.record(doc, 0);
    }
    let failed = Envelope::v4(2, Message::Response(Response::Failed { code: "x".to_owned(), message: "y".to_owned() }));
    assert_eq!(
        pending.resolve(failed).unwrap().1.unwrap_err(),
        RuntimeProcessError::RuntimeFailure { code: "x".to_owned(), message: "y".to_owned() }
    );
    let wrong_page = Envelope::v4(
        3,
        Message::Response(Response::Rendered {
            page_id: PageId::new("a"),
            navigation_id: NavigationId::zero().saturating_next(),
            final_url: String::new(),
            title: String::new(),
            display_list: EncodedDisplayList(String::new()),
            diagnostics: Vec::new(),
        }),
    );
    assert_eq!(pending.resolve(wrong_page).unwrap().1.unwrap_err(), RuntimeProcessError::UnexpectedResponse);
    assert_eq!(pending.len(), 0);
}

#[test]
fn requests_time_out_and_the_queue_applies_backpressure() {
    let mut pending = PendingRenders::new();
    for i in 0..MAXIMUM_PENDING_REQUESTS {
        let doc = document("p", Vec::new());
        pending.admission(&doc).unwrap();
        pending.record(doc, i as u64 * 100);
    }
    assert_eq!(pending.admission(&document("q", Vec::new())).unwrap_err(), RuntimeProcessError::Backpressure);
    let expired = pending.expire(5_150);
    assert_eq!(expired, vec![2, 3]);
    assert_eq!(pending.len(), MAXIMUM_PENDING_REQUESTS - 2);
    let drained = pending.drain();
    assert_eq!(drained.len(), MAXIMUM_PENDING_REQUESTS - 2);
    assert_eq!(drained[0], 4);
    assert_eq!(pending.len(), 0);
}

#[test]
fn refusals_and_errors_read_as_sentences() {
    assert_eq!(queue_refusal(true), RuntimeProcessError::Backpressure);
    assert_eq!(queue_refusal(false), RuntimeProcessError::RuntimeDisconnected);
    assert_eq!(
        RuntimeProcessError::RuntimeFailure { code: "bad".to_owned(), message: "worse".to_owned() }.describe(),
        "renderer runtime failed with bad: worse"
    );
    assert_eq!(RuntimeProcessError::Spawn("no file".to_owned()).describe(), "could not start renderer runtime: no file");
}
