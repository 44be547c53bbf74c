use archetype_browser::protocol::codec::Codec;
use archetype_browser::protocol::router::{RequestRouter, RouterError};
use archetype_browser::protocol::transport::{memory_transport, MemoryEndpoint, TransportError};
use archetype_browser::protocol::{Envelope, Message, ProtocolError, Request, Response};
use archetype_browser::types::{Duration, NavigationId, PageId};

/// A short text form of the envelopes that cross the test transport: the kind,
/// the request id and, for cancellations, the target.
fn body(envelope: &Envelope) -> Vec<u8> {
    let text = match envelope.message() {
        Message::Request(Request::Cancel { target_request_id }) => {
            format!("cancel {} {}", envelope.request_id(), target_request_id)
        }
        Message::Request(_) => format!("request {}", envelope.request_id()),
        Message::Response(Response::Accepted) => format!("accepted {}", envelope.request_id()),
        Message::Response(Response::Cancelled { target_request_id }) => {
            format!("cancelled {} {}", envelope.request_id(), target_request_id)
        }
        _ => panic!("test transport only carries requests and responses"),
    };
    text.into_bytes()
}

fn envelope(body: &[u8]) -> Envelope {
    let text = String::from_utf8(body.to_vec()).unwrap();
    let parts: Vec<&str> = text.split(' ').collect();
    let request_id: u64 = parts[1].parse().unwrap();
    let message = match parts[0] {
        "accepted" => Message::Response(Response::Accepted),
        "cancelled" => Message::Response(Response::Cancelled { target_request_id: parts[2].parse().unwrap() }),
        "cancel" => Message::Request(Request::Cancel { target_request_id: parts[2].parse().unwrap() }),
        _ => Message::Request(Request::Navigate {
            page_id: PageId::new("page"),
            navigation_id: NavigationId::zero(),
            url: "https://example.test/".to_owned(),
        }),
    };
    Envelope::v4(request_id, message)
}

struct FakeRuntime;

impl FakeRuntime {
    fn response(request: &Envelope) -> Envelope {
        let response = match request.message() {
            Message::Request(Request::Navigate { .. } | Request::RenderDocument { .. }) => Response::Accepted,
            Message::Request(Request::Cancel { target_request_id }) => {
                Response::Cancelled { target_request_id: *target_request_id }
            }
            _ => panic!("fake runtime only accepts requests"),
        };
        Envelope::v4(request.request_id(), Message::Response(response))
    }

    fn receive(endpoint: &MemoryEndpoint) -> Envelope {
        envelope(&endpoint.try_receive().unwrap().expect("request should be queued"))
    }
}

fn navigate(url: &str) -> Request {
    Request::Navigate {
        page_id: PageId::new(&uuid::Uuid::now_v7().to_string()),
        navigation_id: NavigationId::zero().saturating_next(),
        url: url::Url::parse(url).unwrap().to_string(),
    }
}

fn zero() -> Duration {
    Duration::from_secs(0)
}

#[test]
fn router_correlates_out_of_order_fake_runtime_responses() {
    let (client, runtime) = memory_transport(4, 64 * 1024, Codec::default());
    let mut router = RequestRouter::new(2);
    let now = zero();
    let first = router.begin(navigate("https://example.test/one"), now, Duration::from_secs(5)).unwrap();
    let second = router.begin(navigate("https://example.test/two"), now, Duration::from_secs(5)).unwrap();
    client.send(&body(&first)).unwrap();
    client.send(&body(&second)).unwrap();

    let runtime_first = FakeRuntime::receive(&runtime);
    let runtime_second = FakeRuntime::receive(&runtime);
    runtime.send(&body(&FakeRuntime::response(&runtime_second))).unwrap();
    runtime.send(&body(&FakeRuntime::response(&runtime_first))).unwrap();

    let second_response = envelope(&client.try_receive().unwrap().unwrap());
    let first_response = envelope(&client.try_receive().unwrap().unwrap());
    assert_eq!(router.route(second_response, now).unwrap().original_request_id, second.request_id());
    assert_eq!(router.route(first_response, now).unwrap().original_request_id, first.request_id());
    assert_eq!(router.pending_count(), 0);
}

#[test]
fn cancellation_replaces_the_target_and_discards_its_late_response() {
    let (client, runtime) = memory_transport(4, 64 * 1024, Codec::default());
    let mut router = RequestRouter::new(1);
    let now = zero();
    let navigation = router.begin(navigate("https://example.test/slow"), now, Duration::from_secs(10)).unwrap();
    client.send(&body(&navigation)).unwrap();
    let held_navigation = FakeRuntime::receive(&runtime);

    let cancellation = router.cancel(navigation.request_id(), now, Duration::from_secs(2)).unwrap();
    assert!(cancellation.request_id() > navigation.request_id());
    assert_eq!(router.pending_count(), 1);
    client.send(&body(&cancellation)).unwrap();
    let runtime_cancellation = FakeRuntime::receive(&runtime);
    runtime.send(&body(&FakeRuntime::response(&runtime_cancellation))).unwrap();

    let completion = router.route(envelope(&client.try_receive().unwrap().unwrap()), now).unwrap();
    assert_eq!(completion.original_request_id, navigation.request_id());
    assert_eq!(completion.response_request_id, cancellation.request_id());
    assert!(matches!(completion.response, Response::Cancelled { .. }));

    runtime.send(&body(&FakeRuntime::response(&held_navigation))).unwrap();
    assert!(matches!(
        router.route(envelope(&client.try_receive().unwrap().unwrap()), now),
        Err(RouterError::UnknownRequest(request_id)) if request_id == navigation.request_id()
    ));
}

#[test]
fn router_expires_requests_without_sleeping() {
    let mut router = RequestRouter::new(2);
    let request = router
        .begin(navigate("https://example.test/timeout"), Duration::from_secs(10), Duration::from_secs(2))
        .unwrap();
    assert_eq!(router.expire(Duration::from_secs(11)), Vec::<u64>::new());
    assert_eq!(router.expire(Duration::from_secs(12)), vec![request.request_id()]);
    assert_eq!(router.pending_count(), 0);
}

#[test]
fn router_and_transport_apply_backpressure() {
    let mut router = RequestRouter::new(1);
    let first = router.begin(navigate("https://example.test/one"), zero(), Duration::from_secs(1)).unwrap();
    assert!(matches!(
        router.begin(navigate("https://example.test/two"), zero(), Duration::from_secs(1)),
        Err(RouterError::Backpressure { maximum: 1 })
    ));

    let (sender, receiver) = memory_transport(1, 64 * 1024, Codec::default());
    sender.send(&body(&first)).unwrap();
    assert!(sender.outgoing_queued_bytes() > 0);
    assert!(matches!(sender.send(&body(&first)), Err(TransportError::QueueFull)));
    FakeRuntime::receive(&receiver);
    assert_eq!(sender.outgoing_queued_bytes(), 0);

    let (byte_limited, _peer) = memory_transport(2, 1, Codec::default());
    assert!(matches!(byte_limited.send(&body(&first)), Err(TransportError::ByteLimit { maximum: 1 })));
    assert_eq!(byte_limited.outgoing_queued_bytes(), 0);
}

#[test]
fn request_ids_start_after_the_handshake_and_rise() {
    let mut router = RequestRouter::new(4);
    let first = router.begin(navigate("https://example.test/a"), zero(), Duration::from_secs(1)).unwrap();
    let second = router.begin(navigate("https://example.test/b"), zero(), Duration::from_secs(1)).unwrap();
    assert!(first.request_id() > 0);
    assert_eq!(second.request_id(), first.request_id() + 1);
    assert!(matches!(router.cancel(99, zero(), Duration::from_secs(1)), Err(RouterError::UnknownRequest(99))));
}

#[test]
fn memory_transport_refuses_oversized_and_orphaned_frames() {
    let (small, _peer) = memory_transport(4, 1024, Codec::new(4));
    assert!(matches!(
        small.send(b"too long"),
        Err(TransportError::Protocol(ProtocolError::FrameTooLarge { actual: 8, maximum: 4 }))
    ));
    assert_eq!(small.outgoing_queued_bytes(), 0);
    small.send(b"ok").unwrap();
    assert_eq!(small.outgoing_queued_bytes(), 6);

    let (orphan, gone) = memory_transport(4, 1024, Codec::default());
    drop(gone);
    assert!(matches!(orphan.send(b"hello"), Err(TransportError::Disconnected)));
    assert_eq!(orphan.outgoing_queued_bytes(), 0);
}
