use archetype_browser::protocol::codec::{check_wire, wire_body, Codec, MessageKind, WireEnvelope};
use archetype_browser::protocol::{
    Capability, ClientHello, Envelope, Message, ProtocolError, ProtocolLimits, RejectionCode, Rejected,
    ServerHandshake, MAGIC, MAX_FRAME_BODY_BYTES,
};

fn capabilities() -> Vec<Capability> {
    vec![Capability::cancellable_navigation(), Capability::display_list_v1(), Capability::static_document()]
}

fn client_hello() -> Envelope {
    Envelope::v4(
        1,
        Message::ClientHello(ClientHello {
            minimum_protocol_minor: 0,
            maximum_protocol_minor: 1,
            capabilities: capabilities(),
        }),
    )
}

/// The JSON payload of the client hello above, as the wire carries it.
const CLIENT_HELLO_PAYLOAD: &str = r#"{"minimum_protocol_minor":0,"maximum_protocol_minor":1,"capabilities":["cancellable_navigation","display_list_v1","static_document"]}"#;

fn encoded_client_hello() -> Vec<u8> {
    let body = wire_body(4, 0, MessageKind::ClientHello, 1, CLIENT_HELLO_PAYLOAD);
    Codec::default().encode_frame(body.as_bytes()).unwrap()
}

fn wire(magic: &str, kind: &str, payload_length: u64) -> WireEnvelope {
    WireEnvelope {
        magic: magic.to_owned(),
        protocol_major: 4,
        protocol_minor: 0,
        kind: kind.to_owned(),
        request_id: 1,
        payload_length,
        payload: CLIENT_HELLO_PAYLOAD.to_owned(),
    }
}

fn assert_rejected(envelope: &Envelope, expected: RejectionCode) {
    let Message::Rejected(rejected) = envelope.message() else {
        panic!("handshake should be rejected");
    };
    assert_eq!(rejected.code, expected);
}

fn names(capabilities: &[Capability]) -> Vec<String> {
    capabilities.iter().map(|capability| capability.as_str().to_owned()).collect()
}

#[test]
fn codec_enforces_the_frame_limit_before_reading_a_body() {
    let bytes = encoded_client_hello();
    let body_length = bytes.len() - 4;
    let body = &bytes[4..];

    let exact = Codec::new(body_length).encode_frame(body).unwrap();
    assert_eq!(Codec::new(body_length).decode_frame(exact.as_slice()).unwrap().0, body);

    assert!(matches!(Codec::new(body_length - 1).encode_frame(body), Err(ProtocolError::FrameTooLarge { .. })));
    assert!(matches!(Codec::new(body_length - 1).decode_frame(bytes.as_slice()), Err(ProtocolError::FrameTooLarge { .. })));

    let oversized = u32::try_from(MAX_FRAME_BODY_BYTES + 1).unwrap().to_be_bytes();
    assert!(matches!(
        Codec::new(usize::MAX).decode_frame(oversized.as_slice()),
        Err(ProtocolError::FrameTooLarge { maximum: MAX_FRAME_BODY_BYTES, .. })
    ));
}

#[test]
fn codec_rejects_empty_truncated_and_malformed_frames() {
    assert!(matches!(Codec::default().decode_frame([0, 0, 0, 0].as_slice()), Err(ProtocolError::EmptyFrame)));
    assert!(matches!(Codec::default().decode_frame([0, 0, 0, 4, b'{'].as_slice()), Err(ProtocolError::Io(_))));
    let (body, used) = Codec::default().decode_frame([0, 0, 0, 1, b'{'].as_slice()).unwrap();
    assert_eq!(used, 5);
    assert!(serde_json::from_slice::<serde_json::Value>(&body).is_err());
}

#[test]
fn codec_ignores_optional_fields_and_rejects_unknown_kinds() {
    let length = CLIENT_HELLO_PAYLOAD.len() as u64;
    let checked = check_wire(wire(MAGIC, "client_hello", length)).unwrap();
    assert_eq!(checked.kind, MessageKind::ClientHello);
    assert_eq!(checked.request_id, 1);
    assert!(matches!(
        check_wire(wire(MAGIC, "future_message", length)),
        Err(ProtocolError::UnknownMessageKind(kind)) if kind == "future_message"
    ));
}

#[test]
fn codec_rejects_invalid_magic_and_payload_length() {
    let length = CLIENT_HELLO_PAYLOAD.len() as u64;
    assert!(matches!(
        check_wire(wire("NOPE", "client_hello", length)),
        Err(ProtocolError::InvalidMagic(magic)) if magic == "NOPE"
    ));
    assert!(matches!(
        check_wire(wire(MAGIC, "client_hello", 0)),
        Err(ProtocolError::PayloadLengthMismatch { .. })
    ));
}

#[test]
fn handshake_negotiates_minor_version_capabilities_and_limits() {
    let server = ServerHandshake::new(
        0,
        vec![Capability::static_document(), Capability::renderer_restart_v1()],
        ProtocolLimits::default(),
    );
    let response = server.handle(&client_hello()).unwrap();
    assert_eq!(response.request_id(), 1);
    let Message::ServerHello(hello) = response.message() else {
        panic!("handshake should succeed");
    };
    assert_eq!(hello.selected_protocol_minor, 0);
    assert_eq!(names(&hello.capabilities), vec!["static_document".to_owned()]);
    assert_eq!(hello.limits, ProtocolLimits::default());
}

#[test]
fn handshake_rejects_incompatible_and_invalid_versions() {
    let server = ServerHandshake::new(0, capabilities(), ProtocolLimits::default());
    let incompatible_major = Envelope::new(
        5,
        0,
        7,
        Message::ClientHello(ClientHello { minimum_protocol_minor: 0, maximum_protocol_minor: 0, capabilities: capabilities() }),
    );
    assert_rejected(&server.handle(&incompatible_major).unwrap(), RejectionCode::IncompatibleMajor);

    let incompatible_minor = Envelope::v4(
        8,
        Message::ClientHello(ClientHello { minimum_protocol_minor: 2, maximum_protocol_minor: 3, capabilities: capabilities() }),
    );
    assert_rejected(&server.handle(&incompatible_minor).unwrap(), RejectionCode::IncompatibleMinor);

    let invalid_range = Envelope::v4(
        9,
        Message::ClientHello(ClientHello { minimum_protocol_minor: 3, maximum_protocol_minor: 2, capabilities: capabilities() }),
    );
    assert_rejected(&server.handle(&invalid_range).unwrap(), RejectionCode::InvalidHello);
}

#[test]
fn handshake_rejects_reserved_ids_and_non_hello_messages() {
    let server = ServerHandshake::new(0, capabilities(), ProtocolLimits::default());
    let reserved = Envelope::v4(
        0,
        Message::ClientHello(ClientHello { minimum_protocol_minor: 0, maximum_protocol_minor: 0, capabilities: capabilities() }),
    );
    assert!(matches!(server.handle(&reserved), Err(ProtocolError::ReservedRequestId)));

    let response = Envelope::v4(
        1,
        Message::Rejected(Rejected { code: RejectionCode::InvalidHello, message: "invalid".to_owned() }),
    );
    assert!(matches!(
        server.handle(&response),
        Err(ProtocolError::UnexpectedHandshakeMessage(kind)) if kind == "rejected"
    ));
}

#[test]
fn client_and_server_complete_a_framed_handshake() {
    let client_request = Envelope::v4(
        1,
        Message::ClientHello(ClientHello {
            minimum_protocol_minor: 0,
            maximum_protocol_minor: 0,
            capabilities: vec![Capability::display_list_v1(), Capability::static_document()],
        }),
    );
    let codec = Codec::default();
    let payload = r#"{"minimum_protocol_minor":0,"maximum_protocol_minor":0,"capabilities":["display_list_v1","static_document"]}"#;
    let body = wire_body(4, 0, MessageKind::ClientHello, 1, payload);
    let frame = codec.encode_frame(body.as_bytes()).unwrap();
    let (received, _) = codec.decode_frame(frame.as_slice()).unwrap();
    assert_eq!(received, body.as_bytes());

    let server = ServerHandshake::new(0, vec![Capability::static_document()], ProtocolLimits::default());
    let server_response = server.handle(&client_request).unwrap();
    assert_eq!(server_response.request_id(), client_request.request_id());
    let Message::ServerHello(hello) = server_response.message() else {
        panic!("server should accept the compatible client");
    };
    assert_eq!(names(&hello.capabilities), vec!["static_document".to_owned()]);
}

#[test]
fn wire_bodies_carry_the_payload_length_in_bytes() {
    let body = wire_body(4, 0, MessageKind::Response, 12, "\"é\"");
    assert_eq!(
        body,
        r#"{"magic":"ARCH","protocol_major":4,"protocol_minor":0,"kind":"response","request_id":12,"payload_length":4,"payload":"é"}"#
    );
    assert_eq!(MessageKind::from_name("server_hello"), Some(MessageKind::ServerHello));
    assert_eq!(MessageKind::ServerHello.as_str(), "server_hello");
}
