use archetype_browser::protocol::{Capability, ClientHello, Envelope, Message, ProtocolError, Request, Response};
use archetype_browser::runtime::{
    image_fallback, request_outcome, runtime_capabilities, serve_step, RequestOutcome, RuntimeError, ServeAction,
    ServeEvent, ServePhase,
};
use archetype_browser::types::{NavigationId, PageId};

fn hello() -> Envelope {
    Envelope::v4(
        1,
        Message::ClientHello(ClientHello {
            minimum_protocol_minor: 0,
            maximum_protocol_minor: 0,
            capabilities: vec![Capability::static_document(), Capability::display_list_v1()],
        }),
    )
}

fn render(viewport_width_px: u32) -> Envelope {
    Envelope::v4(
        2,
        Message::Request(Request::RenderDocument {
            page_id: PageId::new(&uuid::Uuid::now_v7().to_string()),
            navigation_id: NavigationId::zero(),
            url: "https://example.test/".to_owned(),
            html: String::new(),
            viewport_width_px,
            resources: Vec::new(),
        }),
    )
}

#[test]
fn invalid_viewport_returns_a_structured_failure() {
    let (phase, action) = serve_step(ServePhase::AwaitingHello, ServeEvent::Frame(hello()));
    assert_eq!(phase, ServePhase::Serving);
    assert!(matches!(action, ServeAction::Send(response) if matches!(response.message(), Message::ServerHello(_))));

    let (phase, action) = serve_step(phase, ServeEvent::Frame(render(0)));
    assert_eq!(phase, ServePhase::Serving);
    match action {
        ServeAction::Answer { request_id, outcome: RequestOutcome::Respond(Response::Failed { code, .. }) } => {
            assert_eq!(request_id, 2);
            assert_eq!(code, "invalid_viewport");
        }
        other => panic!("unexpected action {other:?}"),
    }
}

#[test]
fn too_wide_viewports_fail_and_others_render() {
    assert!(matches!(
        request_outcome(render(70_000)),
        RequestOutcome::Respond(Response::Failed { message, .. }) if message == "viewport width exceeds 65535 pixels"
    ));
    assert!(matches!(request_outcome(render(800)), RequestOutcome::Render { viewport_width_px: 800, .. }));
}

#[test]
fn other_versions_and_messages_fail_and_cancellations_are_confirmed() {
    let mut old = render(800);
    old.protocol_minor = 9;
    assert!(matches!(
        request_outcome(old),
        RequestOutcome::Respond(Response::Failed { code, .. }) if code == "unsupported_protocol_version"
    ));
    let cancel = Envelope::v4(3, Message::Request(Request::Cancel { target_request_id: 2 }));
    assert!(matches!(
        request_outcome(cancel),
        RequestOutcome::Respond(Response::Cancelled { target_request_id: 2 })
    ));
    assert!(matches!(
        request_outcome(hello()),
        RequestOutcome::Respond(Response::Failed { code, .. }) if code == "unexpected_message"
    ));
}

#[test]
fn serving_ends_at_end_of_input_and_on_errors() {
    assert!(matches!(serve_step(ServePhase::AwaitingHello, ServeEvent::EndOfInput), (ServePhase::Closed, ServeAction::Finish)));
    assert!(matches!(
        serve_step(ServePhase::Serving, ServeEvent::ReadFailed(ProtocolError::EmptyFrame)),
        (ServePhase::Closed, ServeAction::Fail(RuntimeError::Protocol(ProtocolError::EmptyFrame)))
    ));
    assert!(matches!(serve_step(ServePhase::Closed, ServeEvent::Frame(hello())), (ServePhase::Closed, ServeAction::Finish)));
    let mut reserved = hello();
    reserved.request_id = 0;
    assert!(matches!(
        serve_step(ServePhase::AwaitingHello, ServeEvent::Frame(reserved)),
        (ServePhase::Closed, ServeAction::Fail(RuntimeError::Protocol(ProtocolError::ReservedRequestId)))
    ));
}

#[test]
fn an_incompatible_hello_is_rejected_and_closes() {
    let mut incompatible = hello();
    incompatible.protocol_major = 5;
    let (phase, action) = serve_step(ServePhase::AwaitingHello, ServeEvent::Frame(incompatible));
    assert_eq!(phase, ServePhase::Closed);
    assert!(matches!(action, ServeAction::Send(response) if matches!(response.message(), Message::Rejected(_))));
}

#[test]
fn the_runtime_offers_four_capabilities_and_a_default_image_box() {
    let names: Vec<String> = runtime_capabilities().iter().map(|c| c.as_str().to_owned()).collect();
    assert_eq!(names, ["static_document", "display_list_v1", "cancellable_navigation", "resource_broker_v1"]);
    let image = image_fallback("a.png".to_owned(), "alt".to_owned());
    assert_eq!((image.intrinsic_width, image.intrinsic_height, image.loaded), (160, 32, false));
}
