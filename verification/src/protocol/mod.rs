//! The framed renderer protocol: message types, the version and capability
//! handshake, and the length-prefixed frame codec.

use vstd::prelude::*;

use crate::types::{NavigationId, PageId};

pub mod codec;
pub mod router;
pub mod transport;


verus! {

pub const MAGIC: &'static str = "ARCH";

pub const PROTOCOL_MAJOR: u16 = 4;

pub const PROTOCOL_MINOR: u16 = 0;

pub const MAX_FRAME_BODY_BYTES: usize = 16777216;

/// A named protocol feature that a peer supports.
#[derive(Clone, Debug)]
pub struct Capability(String);

impl View for Capability {
    type V = Seq<char>;

    closed spec fn view(&self) -> Seq<char> {
        self.0@
    }
}

impl PartialEq for Capability {
    fn eq(&self, other: &Capability) -> (r: bool) {
        self.0 == other.0
    }
}

impl vstd::std_specs::cmp::PartialEqSpecImpl for Capability {
    open spec fn obeys_eq_spec() -> bool {
        true
    }

    open spec fn eq_spec(&self, other: &Capability) -> bool {
        self@ == other@
    }
}

impl Eq for Capability {}

impl Capability {
    pub fn new(name: &str) -> (r: Capability)
        ensures
            r@ == name@,
    {
        Capability(String::from_str(name))
    }

    pub fn static_document() -> (r: Capability)
        ensures
            r@ == "static_document"@,
    {
        Capability::new("static_document")
    }

    pub fn display_list_v1() -> (r: Capability)
        ensures
            r@ == "display_list_v1"@,
    {
        Capability::new("display_list_v1")
    }

    pub fn cancellable_navigation() -> (r: Capability)
        ensures
            r@ == "cancellable_navigation"@,
    {
        Capability::new("cancellable_navigation")
    }

    pub fn resource_broker_v1() -> (r: Capability)
        ensures
            r@ == "resource_broker_v1"@,
    {
        Capability::new("resource_broker_v1")
    }

    pub fn renderer_restart_v1() -> (r: Capability)
        ensures
            r@ == "renderer_restart_v1"@,
    {
        Capability::new("renderer_restart_v1")
    }

    pub fn as_str(&self) -> (r: &str)
        ensures
            r@ == self@,
    {
        self.0.as_str()
    }

    pub fn same(&self, other: &Capability) -> (r: bool)
        ensures
            r == (self@ == other@),
    {
        self.0 == other.0
    }

    pub fn copy(&self) -> (r: Capability)
        ensures
            r@ == self@,
    {
        Capability(self.0.clone())
    }
}

/// The names of a list of capabilities, as a set.
pub open spec fn capability_set(capabilities: Seq<Capability>) -> Set<Seq<char>> {
    Set::new(|name: Seq<char>| exists|i: int| 0 <= i < capabilities.len() && #[trigger] capabilities[i]@ == name)
}

/// The limits that a server announces in its hello.
#[derive(Clone, Copy, Debug, PartialEq, Eq, Structural)]
pub struct ProtocolLimits {
    pub max_frame_body_bytes: u32,
    pub max_in_flight_requests: u16,
    pub max_event_queue: u16,
    pub max_in_flight_bytes: u32,
}

impl Default for ProtocolLimits {
    fn default() -> (r: ProtocolLimits)
        ensures
            r.max_frame_body_bytes == 16777216,
            r.max_in_flight_requests == 64,
            r.max_event_queue == 256,
            r.max_in_flight_bytes == 67108864,
    {
        ProtocolLimits {
            max_frame_body_bytes: 16777216,
            max_in_flight_requests: 64,
            max_event_queue: 256,
            max_in_flight_bytes: 67108864,
        }
    }
}

#[derive(Clone, Debug)]
pub struct ClientHello {
    pub minimum_protocol_minor: u16,
    pub maximum_protocol_minor: u16,
    pub capabilities: Vec<Capability>,
}

#[derive(Clone, Debug)]
pub struct ServerHello {
    pub selected_protocol_minor: u16,
    pub capabilities: Vec<Capability>,
    pub limits: ProtocolLimits,
}

#[derive(Clone, Copy, Debug, PartialEq, Eq, Structural)]
pub enum RejectionCode {
    IncompatibleMajor,
    IncompatibleMinor,
    InvalidHello,
}

#[derive(Clone, Debug)]
pub struct Rejected {
    pub code: RejectionCode,
    pub message: String,
}

#[derive(Clone, Copy, Debug, PartialEq, Eq, Structural)]
pub enum ResourceKind {
    Stylesheet,
    Image,
}

/// The body of a brokered resource.
#[derive(Clone, Debug, PartialEq, Eq)]
pub struct ResourceBytes(Vec<u8>);

impl View for ResourceBytes {
    type V = Seq<u8>;

    closed spec fn view(&self) -> Seq<u8> {
        self.0@
    }
}

impl ResourceBytes {
    pub fn new(bytes: Vec<u8>) -> (r: ResourceBytes)
        ensures
            r@ == bytes@,
    {
        ResourceBytes(bytes)
    }

    pub fn as_slice(&self) -> (r: &[u8])
        ensures
            r@ == self@,
    {
        self.0.as_slice()
    }

    pub fn into_vec(self) -> (r: Vec<u8>)
        ensures
            r@ == self@,
    {
        self.0
    }

    pub fn copy(&self) -> (r: ResourceBytes)
        ensures
            r@ == self@,
    {
        ResourceBytes(vstd::slice::slice_to_vec(self.0.as_slice()))
    }
}

/// A subresource that the browser loaded for the renderer.
#[derive(Clone, Debug)]
pub struct BrokeredResource {
    pub requested_url: String,
    pub final_url: String,
    pub kind: ResourceKind,
    pub body: ResourceBytes,
}

/// Two resources with the same URLs, kind and body.
pub open spec fn same_resource(a: BrokeredResource, b: BrokeredResource) -> bool {
    &&& a.requested_url@ == b.requested_url@
    &&& a.final_url@ == b.final_url@
    &&& a.kind == b.kind
    &&& a.body@ == b.body@
}

impl BrokeredResource {
    pub fn copy(&self) -> (r: BrokeredResource)
        ensures
            same_resource(r, *self),
    {
        BrokeredResource {
            requested_url: self.requested_url.clone(),
            final_url: self.final_url.clone(),
            kind: self.kind,
            body: self.body.copy(),
        }
    }
}

/// A copy of each resource, in order.
pub fn copy_resources(resources: &Vec<BrokeredResource>) -> (r: Vec<BrokeredResource>)
    ensures
        r@.len() == resources@.len(),
        forall|i: int| 0 <= i < r@.len() ==> same_resource(#[trigger] r@[i], resources@[i]),
{
    let mut copied: Vec<BrokeredResource> = Vec::new();
    let mut i: usize = 0;
    while i < resources.len()
        invariant
            i <= resources@.len(),
            copied@.len() == i,
            forall|j: int| 0 <= j < i ==> same_resource(#[trigger] copied@[j], resources@[j]),
        decreases resources@.len() - i,
    {
        copied.push(resources[i].copy());
        i = i + 1;
    }
    copied
}

#[derive(Clone, Debug)]
pub enum Request {
    Navigate { page_id: PageId, navigation_id: NavigationId, url: String },
    RenderDocument {
        page_id: PageId,
        navigation_id: NavigationId,
        url: String,
        html: String,
        viewport_width_px: u32,
        resources: Vec<BrokeredResource>,
    },
    Cancel { target_request_id: u64 },
}

/// A display list as the renderer serialises it.
#[derive(Clone, Debug)]
pub struct EncodedDisplayList(pub String);

#[derive(Clone, Debug)]
pub enum Response {
    Accepted,
    Rendered {
        page_id: PageId,
        navigation_id: NavigationId,
        final_url: String,
        title: String,
        display_list: EncodedDisplayList,
        diagnostics: Vec<String>,
    },
    Cancelled { target_request_id: u64 },
    Failed { code: String, message: String },
}

#[derive(Clone, Debug)]
pub enum Message {
    ClientHello(ClientHello),
    ServerHello(ServerHello),
    Rejected(Rejected),
    Request(Request),
    Response(Response),
}

/// The wire name of a message's kind.
pub open spec fn message_kind(message: Message) -> Seq<char> {
    match message {
        Message::ClientHello(_) => "client_hello"@,
        Message::ServerHello(_) => "server_hello"@,
        Message::Rejected(_) => "rejected"@,
        Message::Request(_) => "request"@,
        Message::Response(_) => "response"@,
    }
}

impl Message {
    pub fn kind(&self) -> (r: &'static str)
        ensures
            r@ == message_kind(*self),
    {
        match self {
            Message::ClientHello(_) => "client_hello",
            Message::ServerHello(_) => "server_hello",
            Message::Rejected(_) => "rejected",
            Message::Request(_) => "request",
            Message::Response(_) => "response",
        }
    }
}

/// One framed protocol message with its version and correlation id.
#[derive(Clone, Debug)]
pub struct Envelope {
    pub protocol_major: u16,
    pub protocol_minor: u16,
    pub request_id: u64,
    pub message: Message,
}

impl Envelope {
    pub fn new(protocol_major: u16, protocol_minor: u16, request_id: u64, message: Message) -> (r:
        Envelope)
        ensures
            r == (Envelope { protocol_major, protocol_minor, request_id, message }),
    {
        Envelope { protocol_major, protocol_minor, request_id, message }
    }

    pub fn v4(request_id: u64, message: Message) -> (r: Envelope)
        ensures
            r == (Envelope {
                protocol_major: PROTOCOL_MAJOR,
                protocol_minor: PROTOCOL_MINOR,
                request_id,
                message,
            }),
    {
        Envelope::new(PROTOCOL_MAJOR, PROTOCOL_MINOR, request_id, message)
    }

    pub fn protocol_major(&self) -> (r: u16)
        ensures
            r == self.protocol_major,
    {
        self.protocol_major
    }

    pub fn protocol_minor(&self) -> (r: u16)
        ensures
            r == self.protocol_minor,
    {
        self.protocol_minor
    }

    pub fn request_id(&self) -> (r: u64)
        ensures
            r == self.request_id,
    {
        self.request_id
    }

    pub fn message(&self) -> (r: &Message)
        ensures
            *r == self.message,
    {
        &self.message
    }

    pub fn into_message(self) -> (r: Message)
        ensures
            r == self.message,
    {
        self.message
    }
}

#[derive(Clone, Debug)]
pub enum ProtocolError {
    Io(String),
    Json(String),
    EmptyFrame,
    FrameTooLarge { actual: usize, maximum: usize },
    InvalidMagic(String),
    PayloadLengthMismatch { declared: u64, actual: usize },
    UnknownMessageKind(String),
    ReservedRequestId,
    UnexpectedHandshakeMessage(String),
}

/// The server side of the version and capability handshake.
#[derive(Clone, Debug)]
pub struct ServerHandshake {
    pub supported_protocol_minor: u16,
    pub capabilities: Vec<Capability>,
    pub limits: ProtocolLimits,
}

/// The rejection that a handshake answers with.
pub open spec fn is_rejection(response: Envelope, request_id: u64, code: RejectionCode) -> bool {
    &&& response.protocol_major == PROTOCOL_MAJOR
    &&& response.protocol_minor == PROTOCOL_MINOR
    &&& response.request_id == request_id
    &&& response.message matches Message::Rejected(rejected) && rejected.code == code
}

/// What a server that supports minor `supported_minor`, offers the capabilities
/// `offered` and announces `limits` answers the hello `request`: a reserved
/// request id or a message other than a client hello is an error; an
/// incompatible major version, an empty minor range or a range without the
/// supported minor is answered with a rejection; otherwise the server hello
/// selects the supported minor and the shared capabilities.
pub open spec fn handshake_answer(
    supported_minor: u16,
    offered: Set<Seq<char>>,
    limits: ProtocolLimits,
    request: Envelope,
    r: Result<Envelope, ProtocolError>,
) -> bool {
    &&& (request.request_id == 0 ==> (r matches Err(ProtocolError::ReservedRequestId)))
    &&& (request.request_id != 0 && !(request.message is ClientHello) ==> (r matches Err(
        ProtocolError::UnexpectedHandshakeMessage(kind),
    ) && kind@ == message_kind(request.message)))
    &&& request.request_id != 0 ==> match request.message {
        Message::ClientHello(hello) => match r {
            Ok(response) => if request.protocol_major != PROTOCOL_MAJOR {
                is_rejection(response, request.request_id, RejectionCode::IncompatibleMajor)
            } else if hello.minimum_protocol_minor > hello.maximum_protocol_minor {
                is_rejection(response, request.request_id, RejectionCode::InvalidHello)
            } else if !(hello.minimum_protocol_minor <= supported_minor <= hello.maximum_protocol_minor) {
                is_rejection(response, request.request_id, RejectionCode::IncompatibleMinor)
            } else {
                &&& response.protocol_major == PROTOCOL_MAJOR
                &&& response.protocol_minor == supported_minor
                &&& response.request_id == request.request_id
                &&& response.message matches Message::ServerHello(server_hello)
                &&& server_hello.selected_protocol_minor == supported_minor
                &&& server_hello.limits == limits
                &&& capability_set(server_hello.capabilities@) == capability_set(hello.capabilities@).intersect(
                    offered,
                )
                &&& distinct_capabilities(server_hello.capabilities@)
            },
            Err(_) => false,
        },
        _ => true,
    }
}

/// Whether `capabilities` names no capability twice.
pub open spec fn distinct_capabilities(capabilities: Seq<Capability>) -> bool {
    forall|i: int, j: int|
        0 <= i < j < capabilities.len() ==> #[trigger] capabilities[i]@ != #[trigger] capabilities[j]@
}

pub(crate) fn contains_capability(list: &Vec<Capability>, wanted: &Capability) -> (r: bool)
    ensures
        r == capability_set(list@).contains(wanted@),
{
    let mut i: usize = 0;
    while i < list.len()
        invariant
            i <= list.len(),
            forall|j: int| 0 <= j < i ==> list@[j]@ != wanted@,
        decreases list.len() - i,
    {
        if list[i].same(wanted) {
            proof {
                assert(list@[i as int]@ == wanted@);
            }
            return true;
        }
        i = i + 1;
    }
    false
}

/// The capabilities of `client` that `server` supports, each once, in client order.
fn intersect_capabilities(client: &Vec<Capability>, server: &Vec<Capability>) -> (r: Vec<
    Capability,
>)
    ensures
        capability_set(r@) == capability_set(client@).intersect(capability_set(server@)),
        distinct_capabilities(r@),
{
    let mut result: Vec<Capability> = Vec::new();
    let mut i: usize = 0;
    while i < client.len()
        invariant
            i <= client.len(),
            capability_set(result@) == capability_set(client@.subrange(0, i as int)).intersect(
                capability_set(server@),
            ),
            distinct_capabilities(result@),
        decreases client.len() - i,
    {
        let candidate = &client[i];
        let wanted = contains_capability(server, candidate);
        let present = contains_capability(&result, candidate);
        let ghost before = result@;
        if wanted && !present {
            result.push(candidate.copy());
            proof {
                assert(result@ == before.push(result@[before.len() as int]));
                assert(capability_set(result@) =~= capability_set(before).insert(candidate@)) by {
                    assert forall|name: Seq<char>| capability_set(before).insert(candidate@).contains(name)
                        implies capability_set(result@).contains(name) by {
                        if name == candidate@ {
                            assert(result@[before.len() as int]@ == name);
                        } else {
                            let k = choose|k: int| 0 <= k < before.len() && #[trigger] before[k]@ == name;
                            assert(result@[k]@ == name);
                        }
                    }
                }
                assert forall|a: int, b: int| 0 <= a < b < result@.len() implies #[trigger] result@[a]@
                    != #[trigger] result@[b]@ by {
                    if b == result@.len() - 1 {
                        assert(capability_set(before).contains(before[a]@));
                    }
                }
            }
        }
        proof {
            let prefix = client@.subrange(0, i as int);
            let next = client@.subrange(0, i + 1);
            assert(next =~= prefix.push(client@[i as int]));
            assert(capability_set(next) =~= capability_set(prefix).insert(candidate@)) by {
                assert forall|name: Seq<char>| capability_set(prefix).insert(candidate@).contains(name)
                    implies capability_set(next).contains(name) by {
                    if name == candidate@ {
                        assert(next[i as int]@ == name);
                    } else {
                        let k = choose|k: int| 0 <= k < prefix.len() && #[trigger] prefix[k]@ == name;
                        assert(next[k]@ == name);
                    }
                }
            }
            assert(capability_set(result@) =~= capability_set(next).intersect(
                capability_set(server@),
            ));
        }
        i = i + 1;
    }
    proof {
        assert(client@.subrange(0, client@.len() as int) =~= client@);
    }
    result
}

fn rejection(request_id: u64, code: RejectionCode, message: &str) -> (r: Envelope)
    ensures
        is_rejection(r, request_id, code),
{
    Envelope::v4(request_id, Message::Rejected(Rejected { code, message: String::from_str(message) }))
}

impl ServerHandshake {
    pub fn new(supported_protocol_minor: u16, capabilities: Vec<Capability>, limits: ProtocolLimits) -> (r:
        ServerHandshake)
        ensures
            r.supported_protocol_minor == supported_protocol_minor,
            r.capabilities@ == capabilities@,
            r.limits == limits,
    {
        ServerHandshake { supported_protocol_minor, capabilities, limits }
    }

    /// Negotiates one client hello: a reserved request id or a message other than a
    /// client hello is an error; an incompatible major version, an empty minor range
    /// or a range without the supported minor is answered with a rejection; otherwise
    /// the server hello selects the supported minor and the shared capabilities.
    pub fn handle(&self, request: &Envelope) -> (r: Result<Envelope, ProtocolError>)
        ensures
            handshake_answer(self.supported_protocol_minor, capability_set(self.capabilities@), self.limits, *request, r),
    {
        if request.request_id == 0 {
            return Err(ProtocolError::ReservedRequestId);
        }
        let hello = match &request.message {
            Message::ClientHello(hello) => hello,
            other => {
                return Err(
                    ProtocolError::UnexpectedHandshakeMessage(String::from_str(other.kind())),
                );
            },
        };
        if request.protocol_major != PROTOCOL_MAJOR {
            return Ok(
                rejection(
                    request.request_id,
                    RejectionCode::IncompatibleMajor,
                    "protocol major is incompatible",
                ),
            );
        }
        if hello.minimum_protocol_minor > hello.maximum_protocol_minor {
            return Ok(
                rejection(
                    request.request_id,
                    RejectionCode::InvalidHello,
                    "protocol minor range is invalid",
                ),
            );
        }
        if !(hello.minimum_protocol_minor <= self.supported_protocol_minor
            && self.supported_protocol_minor <= hello.maximum_protocol_minor) {
            return Ok(
                rejection(
                    request.request_id,
                    RejectionCode::IncompatibleMinor,
                    "protocol minor is incompatible",
                ),
            );
        }
        let capabilities = intersect_capabilities(&hello.capabilities, &self.capabilities);
        Ok(
            Envelope::new(
                PROTOCOL_MAJOR,
                self.supported_protocol_minor,
                request.request_id,
                Message::ServerHello(
                    ServerHello {
                        selected_protocol_minor: self.supported_protocol_minor,
                        capabilities,
                        limits: self.limits,
                    },
                ),
            ),
        )
    }
}

/// What a client hello gets: always an answer, never an error; a server hello
/// exactly when the major version matches and the client's minor range holds
/// the server's minor, selecting that minor and only capabilities that both
/// sides name; otherwise a rejection that names the first reason.
pub proof fn law_handshake_outcomes(
    supported_minor: u16,
    offered: Set<Seq<char>>,
    limits: ProtocolLimits,
    request: Envelope,
    hello: ClientHello,
    r: Result<Envelope, ProtocolError>,
)
    requires
        handshake_answer(supported_minor, offered, limits, request, r),
        request.request_id != 0,
        request.message == Message::ClientHello(hello),
    ensures
        r is Ok,
        (r->Ok_0.message is ServerHello) <==> (request.protocol_major == PROTOCOL_MAJOR
            && hello.minimum_protocol_minor <= supported_minor <= hello.maximum_protocol_minor),
        r->Ok_0.message matches Message::ServerHello(server_hello) ==> (server_hello.selected_protocol_minor
            == supported_minor && capability_set(server_hello.capabilities@).subset_of(offered)
            && capability_set(server_hello.capabilities@).subset_of(capability_set(hello.capabilities@))),
        request.protocol_major != PROTOCOL_MAJOR ==> is_rejection(
            r->Ok_0,
            request.request_id,
            RejectionCode::IncompatibleMajor,
        ),
        request.protocol_major == PROTOCOL_MAJOR && hello.minimum_protocol_minor > hello.maximum_protocol_minor
            ==> is_rejection(r->Ok_0, request.request_id, RejectionCode::InvalidHello),
        request.protocol_major == PROTOCOL_MAJOR && hello.minimum_protocol_minor <= hello.maximum_protocol_minor
            && !(hello.minimum_protocol_minor <= supported_minor <= hello.maximum_protocol_minor) ==> is_rejection(
            r->Ok_0,
            request.request_id,
            RejectionCode::IncompatibleMinor,
        ),
{
}

} // verus!
