//! Length-prefixed frames and the JSON envelope that a frame body holds.
//!
//! A frame is a big-endian `u32` body length followed by the body. The body is
//! a JSON object naming the protocol magic, the version, the message kind, the
//! request id, the payload's byte length and the payload itself; the payload's
//! own JSON is written and read by the application.

use vstd::prelude::*;

use super::{ProtocolError, MAGIC, MAX_FRAME_BODY_BYTES};
use crate::text::{decimal, decimal_string, decimal_string_u64, str_eq, utf8_len};

verus! {

/// The four big-endian bytes of `n`.
pub open spec fn be_bytes(n: nat) -> Seq<u8> {
    seq![
        (n / 16777216 % 256) as u8,
        (n / 65536 % 256) as u8,
        (n / 256 % 256) as u8,
        (n % 256) as u8,
    ]
}

/// The number that four big-endian bytes stand for.
pub open spec fn be_value(bytes: Seq<u8>) -> nat {
    (bytes[0] * 16777216 + bytes[1] * 65536 + bytes[2] * 256 + bytes[3]) as nat
}

/// The frame of `body`: its length, then the body.
pub open spec fn frame_spec(body: Seq<u8>) -> Seq<u8> {
    be_bytes(body.len()) + body
}

/// What reading one frame from `input` gives.
pub enum FrameRead {
    /// The input ends before the length prefix or the body.
    Truncated,
    /// The length prefix is zero.
    Empty,
    /// The length prefix is over the limit.
    TooLarge(nat),
    /// A body, and the number of bytes that the frame took.
    Frame(Seq<u8>, nat),
}

pub open spec fn read_spec(limit: nat, input: Seq<u8>) -> FrameRead {
    if input.len() < 4 {
        FrameRead::Truncated
    } else {
        let length = be_value(input.subrange(0, 4));
        if length == 0 {
            FrameRead::Empty
        } else if length > limit {
            FrameRead::TooLarge(length)
        } else if input.len() < 4 + length {
            FrameRead::Truncated
        } else {
            FrameRead::Frame(input.subrange(4, 4 + length as int), 4 + length)
        }
    }
}

/// `body` is what reading one frame from `frame` gives, under `limit`.
pub open spec fn is_frame_body(limit: usize, frame: Seq<u8>, body: Seq<u8>) -> bool {
    read_spec(limit as nat, frame) matches FrameRead::Frame(b, _) && b == body
}

/// Frames and reads frame bodies of at most a configured size.
#[derive(Debug)]
pub struct Codec {
    max_frame_body_bytes: usize,
}

/// The text of an I/O failure on input that ends too early.
pub open spec fn truncated_message() -> Seq<char> {
    "failed to fill whole buffer"@
}

impl Codec {
    /// The configured size.
    pub closed spec fn max(&self) -> usize {
        self.max_frame_body_bytes
    }

    /// The size that applies: the configured one, at most [`MAX_FRAME_BODY_BYTES`].
    pub open spec fn limit(&self) -> usize {
        if self.max() < MAX_FRAME_BODY_BYTES {
            self.max()
        } else {
            MAX_FRAME_BODY_BYTES
        }
    }

    pub fn new(max_frame_body_bytes: usize) -> (r: Codec)
        ensures
            r.max() == max_frame_body_bytes,
    {
        Codec { max_frame_body_bytes }
    }

    /// The body size that applies.
    pub fn effective_limit(&self) -> (r: usize)
        ensures
            r == self.limit(),
    {
        if self.max_frame_body_bytes < MAX_FRAME_BODY_BYTES {
            self.max_frame_body_bytes
        } else {
            MAX_FRAME_BODY_BYTES
        }
    }

    /// The frame of `body`; a body over the limit is refused.
    pub fn encode_frame(&self, body: &[u8]) -> (r: Result<Vec<u8>, ProtocolError>)
        ensures
            body@.len() > self.limit() ==> (r matches Err(
                ProtocolError::FrameTooLarge { actual, maximum },
            ) && actual == body@.len() && maximum == self.limit()),
            body@.len() <= self.limit() ==> (r matches Ok(frame) && frame@ == frame_spec(body@)),
    {
        let limit = self.effective_limit();
        let n = body.len();
        if n > limit {
            return Err(ProtocolError::FrameTooLarge { actual: n, maximum: limit });
        }
        let mut frame: Vec<u8> = Vec::new();
        frame.push((n / 16777216 % 256) as u8);
        frame.push((n / 65536 % 256) as u8);
        frame.push((n / 256 % 256) as u8);
        frame.push((n % 256) as u8);
        let mut i: usize = 0;
        while i < n
            invariant
                i <= n,
                n == body@.len(),
                frame@ == be_bytes(n as nat) + body@.subrange(0, i as int),
            decreases n - i,
        {
            frame.push(body[i]);
            proof {
                assert(body@.subrange(0, i + 1) =~= body@.subrange(0, i as int).push(body@[i as int]));
            }
            i = i + 1;
        }
        proof {
            assert(body@.subrange(0, n as int) =~= body@);
            assert(frame@ =~= frame_spec(body@));
        }
        Ok(frame)
    }

    /// Reads one frame from the start of `input`: its body and the number of
    /// bytes that it took.
    pub fn decode_frame(&self, input: &[u8]) -> (r: Result<(Vec<u8>, usize), ProtocolError>)
        ensures
            match read_spec(self.limit() as nat, input@) {
                FrameRead::Truncated => r matches Err(ProtocolError::Io(message)) && message@
                    == truncated_message(),
                FrameRead::Empty => r matches Err(ProtocolError::EmptyFrame),
                FrameRead::TooLarge(length) => r matches Err(
                    ProtocolError::FrameTooLarge { actual, maximum },
                ) && actual == length && maximum == self.limit(),
                FrameRead::Frame(body, used) => r matches Ok((b, u)) && b@ == body && u == used,
            },
    {
        let limit = self.effective_limit();
        if input.len() < 4 {
            return Err(ProtocolError::Io(String::from_str("failed to fill whole buffer")));
        }
        let length: u64 = input[0] as u64 * 16777216 + input[1] as u64 * 65536 + input[2] as u64
            * 256 + input[3] as u64;
        proof {
            assert(length == be_value(input@.subrange(0, 4)));
        }
        if length == 0 {
            return Err(ProtocolError::EmptyFrame);
        }
        if length > limit as u64 {
            let actual = length as usize;
            return Err(ProtocolError::FrameTooLarge { actual, maximum: limit });
        }
        let n = length as usize;
        if input.len() - 4 < n {
            return Err(ProtocolError::Io(String::from_str("failed to fill whole buffer")));
        }
        let mut body: Vec<u8> = Vec::new();
        let mut i: usize = 0;
        while i < n
            invariant
                i <= n,
                4 + n <= input.len(),
                input.len() == input@.len(),
                body@ == input@.subrange(4, 4 + i),
            decreases n - i,
        {
            body.push(input[4 + i]);
            proof {
                assert(body@ =~= input@.subrange(4, 4 + i + 1));
            }
            i = i + 1;
        }
        Ok((body, 4 + n))
    }
}

impl Clone for Codec {
    fn clone(&self) -> (r: Codec)
        ensures
            r.max() == self.max(),
    {
        Codec { max_frame_body_bytes: self.max_frame_body_bytes }
    }
}

impl Default for Codec {
    fn default() -> (r: Codec)
        ensures
            r.max() == MAX_FRAME_BODY_BYTES,
    {
        Codec::new(MAX_FRAME_BODY_BYTES)
    }
}

/// Reading the frame of a body within the limit gives the body back and takes
/// exactly the frame, whatever follows it.
pub proof fn law_frame_roundtrip(limit: nat, body: Seq<u8>, rest: Seq<u8>)
    requires
        0 < body.len() <= limit,
        limit <= MAX_FRAME_BODY_BYTES,
    ensures
        read_spec(limit, frame_spec(body) + rest) == FrameRead::Frame(body, 4 + body.len()),
{
    let input = frame_spec(body) + rest;
    let n = body.len();
    assert(input.subrange(0, 4) =~= be_bytes(n));
    assert(be_value(be_bytes(n)) == n) by (nonlinear_arith)
        requires
            n < 16777216 * 256,
            be_bytes(n)[0] == n / 16777216 % 256,
            be_bytes(n)[1] == n / 65536 % 256,
            be_bytes(n)[2] == n / 256 % 256,
            be_bytes(n)[3] == n % 256,
    ;
    assert(input.subrange(4, 4 + n as int) =~= body);
}

/// The kinds of protocol message.
#[derive(Clone, Copy, Debug, PartialEq, Eq, Structural)]
pub enum MessageKind {
    ClientHello,
    ServerHello,
    Rejected,
    Request,
    Response,
}

/// The wire name of a kind.
pub open spec fn kind_name(kind: MessageKind) -> Seq<char> {
    match kind {
        MessageKind::ClientHello => "client_hello"@,
        MessageKind::ServerHello => "server_hello"@,
        MessageKind::Rejected => "rejected"@,
        MessageKind::Request => "request"@,
        MessageKind::Response => "response"@,
    }
}

/// The kind with wire name `name`, if there is one.
pub open spec fn kind_named(name: Seq<char>) -> Option<MessageKind> {
    if name == "client_hello"@ {
        Some(MessageKind::ClientHello)
    } else if name == "server_hello"@ {
        Some(MessageKind::ServerHello)
    } else if name == "rejected"@ {
        Some(MessageKind::Rejected)
    } else if name == "request"@ {
        Some(MessageKind::Request)
    } else if name == "response"@ {
        Some(MessageKind::Response)
    } else {
        None
    }
}

impl MessageKind {
    pub fn as_str(self) -> (r: &'static str)
        ensures
            r@ == kind_name(self),
    {
        match self {
            MessageKind::ClientHello => "client_hello",
            MessageKind::ServerHello => "server_hello",
            MessageKind::Rejected => "rejected",
            MessageKind::Request => "request",
            MessageKind::Response => "response",
        }
    }

    /// The kind with wire name `name`.
    pub fn from_name(name: &str) -> (r: Option<MessageKind>)
        ensures
            r == kind_named(name@),
    {
        if str_eq(name, "client_hello") {
            Some(MessageKind::ClientHello)
        } else if str_eq(name, "server_hello") {
            Some(MessageKind::ServerHello)
        } else if str_eq(name, "rejected") {
            Some(MessageKind::Rejected)
        } else if str_eq(name, "request") {
            Some(MessageKind::Request)
        } else if str_eq(name, "response") {
            Some(MessageKind::Response)
        } else {
            None
        }
    }
}

/// Every kind is found again by its wire name.
pub proof fn law_kind_names_roundtrip(kind: MessageKind)
    ensures
        kind_named(kind_name(kind)) == Some(kind),
{
    reveal_strlit("client_hello");
    reveal_strlit("server_hello");
    reveal_strlit("rejected");
    reveal_strlit("request");
    reveal_strlit("response");
    assert("client_hello"@[0] != "server_hello"@[0]);
    assert("client_hello"@.len() != "rejected"@.len());
    assert("client_hello"@.len() != "request"@.len());
    assert("client_hello"@.len() != "response"@.len());
    assert("server_hello"@.len() != "rejected"@.len());
    assert("server_hello"@.len() != "request"@.len());
    assert("server_hello"@.len() != "response"@.len());
    assert("rejected"@[2] != "request"@[2]);
    assert("rejected"@[2] != "response"@[2]);
    assert("request"@.len() != "response"@.len());
}

/// A frame body as read from JSON, before it is checked.
#[derive(Clone, Debug)]
pub struct WireEnvelope {
    pub magic: String,
    pub protocol_major: u16,
    pub protocol_minor: u16,
    pub kind: String,
    pub request_id: u64,
    pub payload_length: u64,
    /// The payload's JSON text, as it stands in the body.
    pub payload: String,
}

/// A checked frame body: its version, request id, message kind and payload text.
#[derive(Clone, Debug)]
pub struct CheckedEnvelope {
    pub protocol_major: u16,
    pub protocol_minor: u16,
    pub request_id: u64,
    pub kind: MessageKind,
    pub payload: String,
}

/// Checks a frame body: the magic first, then that the payload has the declared
/// byte length, then that the kind is known.
pub fn check_wire(wire: WireEnvelope) -> (r: Result<CheckedEnvelope, ProtocolError>)
    ensures
        wire.magic@ != MAGIC@ ==> (r matches Err(ProtocolError::InvalidMagic(magic)) && magic@
            == wire.magic@),
        wire.magic@ == MAGIC@ && wire.payload_length != utf8_len(wire.payload@) ==> (r matches Err(
            ProtocolError::PayloadLengthMismatch { declared, actual },
        ) && declared == wire.payload_length && actual == utf8_len(wire.payload@)),
        wire.magic@ == MAGIC@ && wire.payload_length == utf8_len(wire.payload@) ==> match kind_named(
            wire.kind@,
        ) {
            Some(kind) => r matches Ok(checked) && checked.kind == kind && checked.protocol_major
                == wire.protocol_major && checked.protocol_minor == wire.protocol_minor
                && checked.request_id == wire.request_id && checked.payload@ == wire.payload@,
            None => r matches Err(ProtocolError::UnknownMessageKind(name)) && name@ == wire.kind@,
        },
{
    if !str_eq(wire.magic.as_str(), MAGIC) {
        return Err(ProtocolError::InvalidMagic(wire.magic));
    }
    let actual = wire.payload.as_str().as_bytes().len();
    if wire.payload_length != actual as u64 {
        return Err(ProtocolError::PayloadLengthMismatch { declared: wire.payload_length, actual });
    }
    match MessageKind::from_name(wire.kind.as_str()) {
        Some(kind) => Ok(
            CheckedEnvelope {
                protocol_major: wire.protocol_major,
                protocol_minor: wire.protocol_minor,
                request_id: wire.request_id,
                kind,
                payload: wire.payload,
            },
        ),
        None => Err(ProtocolError::UnknownMessageKind(wire.kind)),
    }
}

/// The JSON text of a frame body around a payload's JSON text.
pub open spec fn wire_text(
    protocol_major: u16,
    protocol_minor: u16,
    kind: MessageKind,
    request_id: u64,
    payload: Seq<char>,
) -> Seq<char> {
    "{\"magic\":\""@ + MAGIC@ + "\",\"protocol_major\":"@ + decimal(protocol_major as nat)
        + ",\"protocol_minor\":"@ + decimal(protocol_minor as nat) + ",\"kind\":\""@ + kind_name(
        kind,
    ) + "\",\"request_id\":"@ + decimal(request_id as nat) + ",\"payload_length\":"@ + decimal(
        utf8_len(payload),
    ) + ",\"payload\":"@ + payload + "}"@
}

/// Writes the JSON text of a frame body around the payload's JSON text.
pub fn wire_body(
    protocol_major: u16,
    protocol_minor: u16,
    kind: MessageKind,
    request_id: u64,
    payload: &str,
) -> (r: String)
    ensures
        r@ == wire_text(protocol_major, protocol_minor, kind, request_id, payload@),
{
    let mut out = String::from_str("{\"magic\":\"");
    out.append(MAGIC);
    out.append("\",\"protocol_major\":");
    out.append(decimal_string(protocol_major as usize).as_str());
    out.append(",\"protocol_minor\":");
    out.append(decimal_string(protocol_minor as usize).as_str());
    out.append(",\"kind\":\"");
    out.append(kind.as_str());
    out.append("\",\"request_id\":");
    out.append(decimal_string_u64(request_id).as_str());
    out.append(",\"payload_length\":");
    out.append(decimal_string(payload.as_bytes().len()).as_str());
    out.append(",\"payload\":");
    out.append(payload);
    out.append("}");
    proof {
        assert(protocol_major as usize as nat == protocol_major as nat);
        assert(protocol_minor as usize as nat == protocol_minor as nat);
        assert(out@ =~= wire_text(protocol_major, protocol_minor, kind, request_id, payload@));
    }
    out
}

} // verus!
