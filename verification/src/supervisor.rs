//! The decisions of the supervisor that runs the renderer runtime as a child
//! process: how the child proves it was launched by us, how the handshake ends,
//! which render requests are admitted, how an answer completes its pending
//! request, and which requests have run out of time.

use vstd::prelude::*;

use crate::protocol::{
    capability_set, contains_capability, copy_resources, same_resource, BrokeredResource,
    Capability, ClientHello, EncodedDisplayList, Envelope, Message, Request, ResourceKind, Response,
    PROTOCOL_MAJOR, PROTOCOL_MINOR,
};
use crate::random::random_bytes;
use crate::text::str_eq;
use crate::types::{NavigationId, PageId};

verus! {

/// Bytes of the random launch token that the child must echo.
pub const LAUNCH_TOKEN_BYTES: usize = 32;

/// Render requests that may wait for an answer at once.
pub const MAXIMUM_PENDING_REQUESTS: usize = 64;

/// Commands that may wait for the supervisor at once.
pub const COMMAND_QUEUE_LIMIT: usize = 256;

/// Milliseconds that the child has for each handshake step.
pub const HANDSHAKE_TIMEOUT_MS: u64 = 5000;

/// Milliseconds that the child has to answer a render request.
pub const REQUEST_TIMEOUT_MS: u64 = 5000;

/// Milliseconds between two rounds of the supervisor loop.
pub const SUPERVISOR_TICK_MS: u64 = 10;

/// Why talking to the renderer runtime failed.
#[derive(Clone, Debug, PartialEq, Eq)]
pub enum RuntimeProcessError {
    SupervisorStart(String),
    Spawn(String),
    HandshakeTimeout,
    HandshakeRejected(String),
    MissingCapabilities,
    Protocol(String),
    RuntimeDisconnected,
    Backpressure,
    RequestTimedOut,
    UnexpectedResponse,
    RuntimeFailure { code: String, message: String },
}

/// The sentence that reports an error.
pub open spec fn process_error_text(error: RuntimeProcessError) -> Seq<char> {
    match error {
        RuntimeProcessError::SupervisorStart(m) => "could not start runtime supervisor: "@ + m@,
        RuntimeProcessError::Spawn(m) => "could not start renderer runtime: "@ + m@,
        RuntimeProcessError::HandshakeTimeout => "renderer runtime handshake timed out"@,
        RuntimeProcessError::HandshakeRejected(m) => "renderer runtime rejected the handshake: "@ + m@,
        RuntimeProcessError::MissingCapabilities => "renderer runtime does not provide the required capabilities"@,
        RuntimeProcessError::Protocol(m) => "renderer runtime protocol failed: "@ + m@,
        RuntimeProcessError::RuntimeDisconnected => "renderer runtime disconnected"@,
        RuntimeProcessError::Backpressure => "renderer runtime request queue is full"@,
        RuntimeProcessError::RequestTimedOut => "renderer runtime request timed out"@,
        RuntimeProcessError::UnexpectedResponse => "renderer runtime returned an unexpected response"@,
        RuntimeProcessError::RuntimeFailure { code, message } => "renderer runtime failed with "@
            + code@ + ": "@ + message@,
    }
}

fn joined(prefix: &str, detail: &String) -> (r: String)
    ensures
        r@ == prefix@ + detail@,
{
    let mut text = String::from_str(prefix);
    text.append(detail.as_str());
    text
}

impl RuntimeProcessError {
    /// The sentence that reports this error.
    pub fn describe(&self) -> (r: String)
        ensures
            r@ == process_error_text(*self),
    {
        match self {
            RuntimeProcessError::SupervisorStart(m) => joined("could not start runtime supervisor: ", m),
            RuntimeProcessError::Spawn(m) => joined("could not start renderer runtime: ", m),
            RuntimeProcessError::HandshakeTimeout => String::from_str("renderer runtime handshake timed out"),
            RuntimeProcessError::HandshakeRejected(m) => joined("renderer runtime rejected the handshake: ", m),
            RuntimeProcessError::MissingCapabilities => String::from_str(
                "renderer runtime does not provide the required capabilities",
            ),
            RuntimeProcessError::Protocol(m) => joined("renderer runtime protocol failed: ", m),
            RuntimeProcessError::RuntimeDisconnected => String::from_str("renderer runtime disconnected"),
            RuntimeProcessError::Backpressure => String::from_str("renderer runtime request queue is full"),
            RuntimeProcessError::RequestTimedOut => String::from_str("renderer runtime request timed out"),
            RuntimeProcessError::UnexpectedResponse => String::from_str(
                "renderer runtime returned an unexpected response",
            ),
            RuntimeProcessError::RuntimeFailure { code, message } => {
                let mut text = joined("renderer runtime failed with ", code);
                text.append(": ");
                text.append(message.as_str());
                text
            },
        }
    }
}

/// The error that a command gets when the supervisor's queue refuses it: a full
/// queue is back-pressure, a closed one a disconnected runtime.
pub fn queue_refusal(full: bool) -> (r: RuntimeProcessError)
    ensures
        full ==> r == RuntimeProcessError::Backpressure,
        !full ==> r == RuntimeProcessError::RuntimeDisconnected,
{
    if full {
        RuntimeProcessError::Backpressure
    } else {
        RuntimeProcessError::RuntimeDisconnected
    }
}

/// The four bytes `ARUN` that open the launch authentication.
pub open spec fn launch_magic() -> Seq<u8> {
    seq![65u8, 82u8, 85u8, 78u8]
}

/// What the supervisor writes to a new child: the magic, then the token.
pub fn launch_preamble(token: &[u8]) -> (r: Vec<u8>)
    ensures
        r@ == launch_magic() + token@,
{
    let mut bytes: Vec<u8> = Vec::new();
    bytes.push(65u8);
    bytes.push(82u8);
    bytes.push(85u8);
    bytes.push(78u8);
    let mut i: usize = 0;
    while i < token.len()
        invariant
            i <= token@.len(),
            bytes@ == launch_magic() + token@.subrange(0, i as int),
        decreases token@.len() - i,
    {
        bytes.push(token[i]);
        i = i + 1;
        proof {
            assert(token@.subrange(0, i as int) =~= token@.subrange(0, i - 1) + seq![token@[i - 1]]);
        }
    }
    proof {
        assert(token@.subrange(0, token@.len() as int) =~= token@);
    }
    bytes
}

/// Whether the child echoed the launch authentication: exactly the magic
/// followed by the token.
pub fn is_launch_authentication(received: &[u8], token: &[u8]) -> (r: bool)
    ensures
        r == (received@ == launch_magic() + token@),
{
    let expected = launch_preamble(token);
    if received.len() != expected.len() {
        return false;
    }
    let mut i: usize = 0;
    while i < received.len()
        invariant
            i <= received@.len(),
            received@.len() == expected@.len(),
            expected@ == launch_magic() + token@,
            forall|j: int| 0 <= j < i ==> received@[j] == expected@[j],
        decreases received@.len() - i,
    {
        if received[i] != expected[i] {
            return false;
        }
        i = i + 1;
    }
    proof {
        assert(received@ =~= expected@);
    }
    true
}

/// A fresh launch token of [`LAUNCH_TOKEN_BYTES`] random bytes; a failing
/// random source is a failed start of the child.
pub fn launch_token() -> (r: Result<Vec<u8>, RuntimeProcessError>)
    ensures
        r matches Ok(token) ==> token@.len() == LAUNCH_TOKEN_BYTES,
        r matches Err(error) ==> error is Spawn,
{
    match random_bytes(LAUNCH_TOKEN_BYTES) {
        Ok(token) => Ok(token),
        Err(message) => Err(RuntimeProcessError::Spawn(message)),
    }
}

/// What the thread that reads the child's output reports.
#[derive(Debug)]
pub enum ReaderEvent {
    /// The child echoed the launch authentication.
    Authenticated,
    /// The child sent an envelope.
    Envelope(Envelope),
    /// Reading failed, with the reason.
    Failed(String),
}

/// The outcome of waiting for the reader.
#[derive(Debug)]
pub enum Received {
    Event(ReaderEvent),
    TimedOut,
    Disconnected,
}

/// The error that the end of waiting gives where the wait itself failed.
pub open spec fn wait_failure(received: Received, r: Result<(), RuntimeProcessError>) -> bool {
    match received {
        Received::TimedOut => r == Err::<(), RuntimeProcessError>(RuntimeProcessError::HandshakeTimeout),
        Received::Disconnected => r == Err::<(), RuntimeProcessError>(RuntimeProcessError::RuntimeDisconnected),
        Received::Event(ReaderEvent::Failed(m)) => r matches Err(RuntimeProcessError::Protocol(e)) && e@ == m@,
        _ => true,
    }
}

/// The first step of the handshake: the child must authenticate before
/// anything else.
pub fn authentication_outcome(received: Received) -> (r: Result<(), RuntimeProcessError>)
    ensures
        received matches Received::Event(ReaderEvent::Authenticated) ==> r is Ok,
        received matches Received::Event(ReaderEvent::Envelope(_)) ==> r == Err::<(), RuntimeProcessError>(
            RuntimeProcessError::UnexpectedResponse,
        ),
        wait_failure(received, r),
{
    match received {
        Received::Event(ReaderEvent::Authenticated) => Ok(()),
        Received::Event(ReaderEvent::Failed(message)) => Err(RuntimeProcessError::Protocol(message)),
        Received::Event(ReaderEvent::Envelope(_)) => Err(RuntimeProcessError::UnexpectedResponse),
        Received::TimedOut => Err(RuntimeProcessError::HandshakeTimeout),
        Received::Disconnected => Err(RuntimeProcessError::RuntimeDisconnected),
    }
}

/// The capabilities that the supervisor asks for, in the order of their names.
pub open spec fn requested_capabilities() -> Seq<Seq<char>> {
    seq!["cancellable_navigation"@, "display_list_v1"@, "resource_broker_v1"@, "static_document"@]
}

/// The supervisor's hello: request 1, exactly the current protocol version, and
/// the capabilities it asks for.
pub fn client_hello() -> (r: Envelope)
    ensures
        r.protocol_major == PROTOCOL_MAJOR,
        r.protocol_minor == PROTOCOL_MINOR,
        r.request_id == 1,
        r.message matches Message::ClientHello(hello) && hello.minimum_protocol_minor == PROTOCOL_MINOR
            && hello.maximum_protocol_minor == PROTOCOL_MINOR && hello.capabilities@.len() == 4
            && forall|i: int| 0 <= i < 4 ==> #[trigger] hello.capabilities@[i]@ == requested_capabilities()[i],
{
    let mut capabilities: Vec<Capability> = Vec::new();
    capabilities.push(Capability::cancellable_navigation());
    capabilities.push(Capability::display_list_v1());
    capabilities.push(Capability::resource_broker_v1());
    capabilities.push(Capability::static_document());
    Envelope::v4(
        1,
        Message::ClientHello(
            ClientHello {
                minimum_protocol_minor: PROTOCOL_MINOR,
                maximum_protocol_minor: PROTOCOL_MINOR,
                capabilities,
            },
        ),
    )
}

/// Whether a server offers what the supervisor cannot do without: static
/// documents, display lists and the resource broker.
pub open spec fn offers_required(capabilities: Seq<Capability>) -> bool {
    &&& capability_set(capabilities).contains("static_document"@)
    &&& capability_set(capabilities).contains("display_list_v1"@)
    &&& capability_set(capabilities).contains("resource_broker_v1"@)
}

/// The last step of the handshake: the answer to request 1 must be a server
/// hello that offers the required capabilities.
pub fn handshake_outcome(received: Received) -> (r: Result<(), RuntimeProcessError>)
    ensures
        received matches Received::Event(ReaderEvent::Authenticated) ==> r == Err::<(), RuntimeProcessError>(
            RuntimeProcessError::UnexpectedResponse,
        ),
        received matches Received::Event(ReaderEvent::Envelope(envelope)) ==> (if envelope.request_id != 1 {
            r == Err::<(), RuntimeProcessError>(RuntimeProcessError::UnexpectedResponse)
        } else {
            match envelope.message {
                Message::ServerHello(hello) => if offers_required(hello.capabilities@) {
                    r is Ok
                } else {
                    r == Err::<(), RuntimeProcessError>(RuntimeProcessError::MissingCapabilities)
                },
                Message::Rejected(rejection) => r matches Err(RuntimeProcessError::HandshakeRejected(m))
                    && m@ == rejection.message@,
                _ => r == Err::<(), RuntimeProcessError>(RuntimeProcessError::UnexpectedResponse),
            }
        }),
        wait_failure(received, r),
{
    match received {
        Received::Event(ReaderEvent::Envelope(envelope)) => {
            if envelope.request_id != 1 {
                return Err(RuntimeProcessError::UnexpectedResponse);
            }
            match envelope.message {
                Message::ServerHello(hello) => {
                    let required = contains_capability(&hello.capabilities, &Capability::static_document())
                        && contains_capability(&hello.capabilities, &Capability::display_list_v1())
                        && contains_capability(&hello.capabilities, &Capability::resource_broker_v1());
                    if required {
                        Ok(())
                    } else {
                        Err(RuntimeProcessError::MissingCapabilities)
                    }
                },
                Message::Rejected(rejection) => Err(RuntimeProcessError::HandshakeRejected(rejection.message)),
                _ => Err(RuntimeProcessError::UnexpectedResponse),
            }
        },
        Received::Event(ReaderEvent::Authenticated) => Err(RuntimeProcessError::UnexpectedResponse),
        Received::Event(ReaderEvent::Failed(message)) => Err(RuntimeProcessError::Protocol(message)),
        Received::TimedOut => Err(RuntimeProcessError::HandshakeTimeout),
        Received::Disconnected => Err(RuntimeProcessError::RuntimeDisconnected),
    }
}

/// A document that the browser hands to the runtime for rendering.
#[derive(Debug)]
pub struct StaticDocument {
    pub page_id: PageId,
    pub navigation_id: NavigationId,
    pub url: String,
    pub html: String,
    pub viewport_width_px: u32,
    pub resources: Vec<BrokeredResource>,
    pub broker_diagnostics: Vec<String>,
}

impl StaticDocument {
    /// Whether `envelope` is request `request_id` to render this document.
    pub open spec fn renders_as(self, request_id: u64, envelope: Envelope) -> bool {
        &&& envelope.protocol_major == PROTOCOL_MAJOR
        &&& envelope.protocol_minor == PROTOCOL_MINOR
        &&& envelope.request_id == request_id
        &&& envelope.message matches Message::Request(
            Request::RenderDocument { page_id, navigation_id, url, html, viewport_width_px, resources },
        ) && page_id.0@ == self.page_id.0@ && navigation_id == self.navigation_id && url@ == self.url@
            && html@ == self.html@ && viewport_width_px == self.viewport_width_px && resources@.len()
            == self.resources@.len() && forall|i: int|
            0 <= i < resources@.len() ==> same_resource(#[trigger] resources@[i], self.resources@[i])
    }

    /// The render request for this document under id `request_id`.
    pub fn protocol_envelope(&self, request_id: u64) -> (r: Envelope)
        ensures
            self.renders_as(request_id, r),
    {
        Envelope::v4(
            request_id,
            Message::Request(
                Request::RenderDocument {
                    page_id: self.page_id.copy(),
                    navigation_id: self.navigation_id,
                    url: self.url.clone(),
                    html: self.html.clone(),
                    viewport_width_px: self.viewport_width_px,
                    resources: copy_resources(&self.resources),
                },
            ),
        )
    }
}

/// The image bodies among `resources` by requested URL; of two images with one
/// URL the later one counts.
pub open spec fn image_entries(resources: Seq<BrokeredResource>) -> Map<Seq<char>, Seq<u8>>
    decreases resources.len(),
{
    if resources.len() == 0 {
        Map::empty()
    } else {
        let earlier = image_entries(resources.drop_last());
        let last = resources.last();
        if last.kind == ResourceKind::Image {
            earlier.insert(last.requested_url@, last.body@)
        } else {
            earlier
        }
    }
}

/// Whether no key occurs twice in a list of entries.
pub open spec fn distinct_keys(entries: Seq<(String, Vec<u8>)>) -> bool {
    forall|i: int, j: int| 0 <= i < j < entries.len() ==> #[trigger] entries[i].0@ != #[trigger] entries[j].0@
}

/// A list of entries read as a map from key to bytes.
pub open spec fn entries_map(entries: Seq<(String, Vec<u8>)>) -> Map<Seq<char>, Seq<u8>> {
    Map::new(
        |key: Seq<char>| exists|i: int| 0 <= i < entries.len() && #[trigger] entries[i].0@ == key,
        |key: Seq<char>| entries[choose|i: int| 0 <= i < entries.len() && #[trigger] entries[i].0@ == key].1@,
    )
}

proof fn lemma_entries_push(entries: Seq<(String, Vec<u8>)>, entry: (String, Vec<u8>))
    requires
        distinct_keys(entries),
        !entries_map(entries).contains_key(entry.0@),
    ensures
        distinct_keys(entries.push(entry)),
        entries_map(entries.push(entry)) =~= entries_map(entries).insert(entry.0@, entry.1@),
{
    let pushed = entries.push(entry);
    assert forall|i: int, j: int| 0 <= i < j < pushed.len() implies #[trigger] pushed[i].0@ != #[trigger] pushed[j].0@ by {
        if j == entries.len() {
            assert(entries[i].0@ == pushed[i].0@);
        } else {
            assert(entries[i].0@ != entries[j].0@);
        }
    }
    assert forall|key: Seq<char>| #[trigger] entries_map(pushed).contains_key(key) == entries_map(entries).insert(
        entry.0@,
        entry.1@,
    ).contains_key(key) by {
        if entries_map(entries).contains_key(key) {
            let i = choose|i: int| 0 <= i < entries.len() && #[trigger] entries[i].0@ == key;
            assert(pushed[i].0@ == key);
        }
        if key == entry.0@ {
            assert(pushed[entries.len() as int].0@ == key);
        }
        if entries_map(pushed).contains_key(key) {
            let i = choose|i: int| 0 <= i < pushed.len() && #[trigger] pushed[i].0@ == key;
            if i < entries.len() {
                assert(entries[i].0@ == key);
            }
        }
    }
    assert forall|key: Seq<char>| #[trigger] entries_map(pushed).contains_key(key) implies entries_map(pushed)[key]
        == entries_map(entries).insert(entry.0@, entry.1@)[key] by {
        let i = choose|i: int| 0 <= i < pushed.len() && #[trigger] pushed[i].0@ == key;
        if key == entry.0@ {
            assert(i == entries.len());
        } else {
            let k = choose|k: int| 0 <= k < entries.len() && #[trigger] entries[k].0@ == key;
            assert(pushed[k].0@ == key);
            assert(i == k);
        }
    }
}

/// The image bodies of `resources` by requested URL, each URL once.
fn collect_images(resources: Vec<BrokeredResource>) -> (r: Vec<(String, Vec<u8>)>)
    ensures
        distinct_keys(r@),
        entries_map(r@) == image_entries(resources@),
{
    let ghost all = resources@;
    let mut rest = resources;
    let mut entries: Vec<(String, Vec<u8>)> = Vec::new();
    proof {
        assert(entries_map(entries@) =~= Map::<Seq<char>, Seq<u8>>::empty());
        assert(all.subrange(0, all.len() as int) =~= all);
    }
    while rest.len() > 0
        invariant
            rest@ == all.subrange(0, rest@.len() as int),
            rest@.len() <= all.len(),
            distinct_keys(entries@),
            image_entries(all) == image_entries(rest@).union_prefer_right(entries_map(entries@)),
        decreases rest@.len(),
    {
        let ghost before = rest@;
        let resource = rest.pop().unwrap();
        proof {
            assert(rest@ == before.drop_last());
            assert(rest@ == all.subrange(0, rest@.len() as int));
        }
        if resource.kind == ResourceKind::Image {
            let mut known = false;
            let mut i: usize = 0;
            while i < entries.len()
                invariant
                    i <= entries@.len(),
                    !known ==> forall|j: int| 0 <= j < i ==> entries@[j].0@ != resource.requested_url@,
                    known ==> entries_map(entries@).contains_key(resource.requested_url@),
                decreases entries@.len() - i,
            {
                if str_eq(entries[i].0.as_str(), resource.requested_url.as_str()) {
                    known = true;
                    proof {
                        assert(entries@[i as int].0@ == resource.requested_url@);
                    }
                }
                i = i + 1;
            }
            if !known {
                let ghost old_entries = entries@;
                let url = resource.requested_url;
                let body = resource.body.into_vec();
                proof {
                    lemma_entries_push(old_entries, (url, body));
                }
                entries.push((url, body));
                proof {
                    assert(image_entries(all) =~= image_entries(rest@).union_prefer_right(entries_map(entries@)));
                }
            } else {
                proof {
                    assert(image_entries(all) =~= image_entries(rest@).union_prefer_right(entries_map(entries@)));
                }
            }
        } else {
            proof {
                assert(image_entries(before) == image_entries(rest@));
            }
        }
    }
    proof {
        assert(image_entries(rest@) =~= Map::<Seq<char>, Seq<u8>>::empty());
        assert(image_entries(all) =~= entries_map(entries@));
    }
    entries
}


/// A page as the runtime rendered it, with the broker's diagnostics first and
/// the image bodies that the page may show.
#[derive(Debug)]
pub struct RuntimeRenderedPage {
    pub page_id: PageId,
    pub navigation_id: NavigationId,
    pub final_url: String,
    pub title: String,
    pub display_list: EncodedDisplayList,
    pub diagnostics: Vec<String>,
    pub image_resources: Vec<(String, Vec<u8>)>,
}

/// A render request that waits for its answer.
#[derive(Debug)]
pub struct PendingRender {
    pub request_id: u64,
    /// When the request times out, in milliseconds on the supervisor's clock.
    pub deadline_ms: u64,
    pub page_id: PageId,
    pub navigation_id: NavigationId,
    pub broker_diagnostics: Vec<String>,
    pub image_resources: Vec<(String, Vec<u8>)>,
}

/// `now_ms` plus the request timeout, or the clock's end.
pub open spec fn deadline_after(now_ms: u64) -> u64 {
    if now_ms + REQUEST_TIMEOUT_MS > u64::MAX {
        u64::MAX
    } else {
        (now_ms + REQUEST_TIMEOUT_MS) as u64
    }
}

/// Whether `pending` is what recording `document` as request `request_id` at
/// `now_ms` keeps.
pub open spec fn pending_for(pending: PendingRender, request_id: u64, document: StaticDocument, now_ms: u64) -> bool {
    &&& pending.request_id == request_id
    &&& pending.deadline_ms == deadline_after(now_ms)
    &&& pending.page_id.0@ == document.page_id.0@
    &&& pending.navigation_id == document.navigation_id
    &&& pending.broker_diagnostics@ == document.broker_diagnostics@
    &&& distinct_keys(pending.image_resources@)
    &&& entries_map(pending.image_resources@) == image_entries(document.resources@)
}

/// What the answer `message` makes of the pending request `pending`: a rendering
/// of the same page and navigation completes it, with the broker's diagnostics
/// before the runtime's; a failure reports the runtime's code and message;
/// anything else is unexpected.
pub open spec fn completes_with(
    pending: PendingRender,
    message: Message,
    result: Result<RuntimeRenderedPage, RuntimeProcessError>,
) -> bool {
    match message {
        Message::Response(Response::Failed { code, message }) => result matches Err(
            RuntimeProcessError::RuntimeFailure { code: c, message: m },
        ) && c@ == code@ && m@ == message@,
        Message::Response(Response::Rendered { page_id, navigation_id, final_url, title, display_list, diagnostics }) =>
            if page_id.0@ == pending.page_id.0@ && navigation_id == pending.navigation_id {
            result matches Ok(page) && page.page_id.0@ == page_id.0@ && page.navigation_id == navigation_id
                && page.final_url@ == final_url@ && page.title@ == title@ && page.display_list.0@
                == display_list.0@ && page.diagnostics@ == pending.broker_diagnostics@ + diagnostics@
                && page.image_resources@ == pending.image_resources@
        } else {
            result == Err::<RuntimeRenderedPage, RuntimeProcessError>(RuntimeProcessError::UnexpectedResponse)
        },
        _ => result == Err::<RuntimeRenderedPage, RuntimeProcessError>(RuntimeProcessError::UnexpectedResponse),
    }
}

/// The ids of a list of pending requests, in order.
pub open spec fn request_ids(pending: Seq<PendingRender>) -> Seq<u64> {
    pending.map_values(|p: PendingRender| p.request_id)
}

/// The ids of the requests whose deadline `now_ms` has reached, in order.
pub open spec fn expired_ids(pending: Seq<PendingRender>, now_ms: u64) -> Seq<u64>
    decreases pending.len(),
{
    if pending.len() == 0 {
        Seq::empty()
    } else {
        let earlier = expired_ids(pending.drop_last(), now_ms);
        if now_ms >= pending.last().deadline_ms {
            earlier.push(pending.last().request_id)
        } else {
            earlier
        }
    }
}

/// The requests whose deadline `now_ms` has not reached, in order.
pub open spec fn still_waiting(pending: Seq<PendingRender>, now_ms: u64) -> Seq<PendingRender>
    decreases pending.len(),
{
    if pending.len() == 0 {
        Seq::empty()
    } else {
        let earlier = still_waiting(pending.drop_last(), now_ms);
        if now_ms >= pending.last().deadline_ms {
            earlier
        } else {
            earlier.push(pending.last())
        }
    }
}

/// The render requests that wait for an answer, in the order they were sent,
/// and the id that the next one gets.
#[derive(Debug)]
pub struct PendingRenders {
    entries: Vec<PendingRender>,
    next_request_id: u64,
}

impl View for PendingRenders {
    type V = Seq<PendingRender>;

    closed spec fn view(&self) -> Seq<PendingRender> {
        self.entries@
    }
}

/// Whether the ids rise strictly and stay below `next`.
pub open spec fn ids_below(pending: Seq<PendingRender>, next: u64) -> bool {
    &&& forall|i: int, j: int| 0 <= i < j < pending.len() ==> #[trigger] pending[i].request_id < #[trigger] pending[j].request_id
    &&& forall|i: int| 0 <= i < pending.len() ==> #[trigger] pending[i].request_id < next
}

impl PendingRenders {
    /// The id that the next admitted request gets.
    pub closed spec fn next_id(self) -> u64 {
        self.next_request_id
    }

    /// Ids rise in the order of sending, stay below the next id, and ids 0 and
    /// 1 stay reserved for the handshake.
    pub closed spec fn wf(self) -> bool {
        &&& ids_below(self.entries@, self.next_request_id)
        &&& self.next_request_id >= 2
    }

    /// No request waits; the first render request gets id 2.
    pub fn new() -> (r: PendingRenders)
        ensures
            r.wf(),
            r@ == Seq::<PendingRender>::empty(),
            r.next_id() == 2,
    {
        PendingRenders { entries: Vec::new(), next_request_id: 2 }
    }

    pub fn len(&self) -> (r: usize)
        ensures
            r == self@.len(),
    {
        self.entries.len()
    }

    /// The render request for `document`, or back-pressure where
    /// [`MAXIMUM_PENDING_REQUESTS`] requests wait or the ids have run out.
    pub fn admission(&self, document: &StaticDocument) -> (r: Result<Envelope, RuntimeProcessError>)
        ensures
            (self@.len() >= MAXIMUM_PENDING_REQUESTS || self.next_id() == u64::MAX) ==> r == Err::<
                Envelope,
                RuntimeProcessError,
            >(RuntimeProcessError::Backpressure),
            (self@.len() < MAXIMUM_PENDING_REQUESTS && self.next_id() < u64::MAX) ==> (r matches Ok(envelope)
                && document.renders_as(self.next_id(), envelope)),
    {
        if self.entries.len() >= MAXIMUM_PENDING_REQUESTS || self.next_request_id == u64::MAX {
            return Err(RuntimeProcessError::Backpressure);
        }
        Ok(document.protocol_envelope(self.next_request_id))
    }

    /// Records that the request for `document` was sent at `now_ms` under the
    /// next id.
    pub fn record(&mut self, document: StaticDocument, now_ms: u64)
        requires
            old(self).wf(),
            old(self)@.len() < MAXIMUM_PENDING_REQUESTS,
            old(self).next_id() < u64::MAX,
        ensures
            final(self).wf(),
            final(self).next_id() == old(self).next_id() + 1,
            final(self)@.len() == old(self)@.len() + 1,
            final(self)@.subrange(0, old(self)@.len() as int) == old(self)@,
            pending_for(final(self)@.last(), old(self).next_id(), document, now_ms),
    {
        let request_id = self.next_request_id;
        let deadline_ms = if now_ms > u64::MAX - REQUEST_TIMEOUT_MS {
            u64::MAX
        } else {
            now_ms + REQUEST_TIMEOUT_MS
        };
        let ghost wanted = document;
        let StaticDocument { page_id, navigation_id, url: _, html: _, viewport_width_px: _, resources, broker_diagnostics } =
            document;
        let image_resources = collect_images(resources);
        let pending = PendingRender {
            request_id,
            deadline_ms,
            page_id,
            navigation_id,
            broker_diagnostics,
            image_resources,
        };
        proof {
            assert(pending_for(pending, request_id, wanted, now_ms));
        }
        self.entries.push(pending);
        self.next_request_id = request_id + 1;
        proof {
            assert(self.entries@.subrange(0, self.entries@.len() - 1) =~= old(self)@);
        }
    }

    /// Completes the request that `envelope` answers and says with what; an
    /// answer to no waiting request changes nothing.
    pub fn resolve(&mut self, envelope: Envelope) -> (r: Option<(u64, Result<RuntimeRenderedPage, RuntimeProcessError>)>)
        requires
            old(self).wf(),
        ensures
            final(self).wf(),
            final(self).next_id() == old(self).next_id(),
            (forall|i: int| 0 <= i < old(self)@.len() ==> #[trigger] old(self)@[i].request_id != envelope.request_id)
                ==> r is None && final(self)@ == old(self)@,
            forall|i: int| 0 <= i < old(self)@.len() && #[trigger] old(self)@[i].request_id == envelope.request_id
                ==> (final(self)@ == old(self)@.remove(i) && (r matches Some((id, result)) && id
                == envelope.request_id && completes_with(old(self)@[i], envelope.message, result))),
    {
        let mut found: Option<usize> = None;
        let mut i: usize = 0;
        while i < self.entries.len()
            invariant
                i <= self.entries@.len(),
                found is None ==> forall|j: int| 0 <= j < i ==> #[trigger] self.entries@[j].request_id != envelope.request_id,
                found matches Some(k) ==> k < self.entries@.len() && self.entries@[k as int].request_id == envelope.request_id,
            decreases self.entries@.len() - i,
        {
            if found.is_none() && self.entries[i].request_id == envelope.request_id {
                found = Some(i);
            }
            i = i + 1;
        }
        let index = match found {
            None => {
                return None;
            },
            Some(index) => index,
        };
        let ghost before = self.entries@;
        proof {
            assert(old(self)@[index as int].request_id == envelope.request_id);
            assert forall|j: int| 0 <= j < before.len() && #[trigger] before[j].request_id == envelope.request_id implies j
                == index by {
                if j < index {
                    assert(before[j].request_id < before[index as int].request_id);
                } else if j > index {
                    assert(before[index as int].request_id < before[j].request_id);
                }
            }
        }
        let request = self.entries.remove(index);
        proof {
            let after = self.entries@;
            assert(after == before.remove(index as int));
            assert forall|a: int, b: int| 0 <= a < b < after.len() implies #[trigger] after[a].request_id
                < #[trigger] after[b].request_id by {
                let a0 = if a < index { a } else { a + 1 };
                let b0 = if b < index { b } else { b + 1 };
                assert(after[a] == before[a0]);
                assert(after[b] == before[b0]);
                assert(before[a0].request_id < before[b0].request_id);
            }
            assert forall|a: int| 0 <= a < after.len() implies #[trigger] after[a].request_id < self.next_request_id by {
                let a0 = if a < index { a } else { a + 1 };
                assert(after[a] == before[a0]);
            }
        }
        let request_id = envelope.request_id;
        let ghost message = envelope.message;
        let result = match envelope.message {
            Message::Response(Response::Failed { code, message }) => Err(
                RuntimeProcessError::RuntimeFailure { code, message },
            ),
            Message::Response(Response::Rendered { page_id, navigation_id, final_url, title, display_list, diagnostics }) => {
                if page_id.same(&request.page_id) && navigation_id.0 == request.navigation_id.0 {
                    let mut all_diagnostics = request.broker_diagnostics;
                    let mut runtime_diagnostics = diagnostics;
                    all_diagnostics.append(&mut runtime_diagnostics);
                    Ok(
                        RuntimeRenderedPage {
                            page_id,
                            navigation_id,
                            final_url,
                            title,
                            display_list,
                            diagnostics: all_diagnostics,
                            image_resources: request.image_resources,
                        },
                    )
                } else {
                    Err(RuntimeProcessError::UnexpectedResponse)
                }
            },
            _ => Err(RuntimeProcessError::UnexpectedResponse),
        };
        Some((request_id, result))
    }

    /// Removes the requests whose deadline `now_ms` has reached and gives their
    /// ids.
    pub fn expire(&mut self, now_ms: u64) -> (r: Vec<u64>)
        requires
            old(self).wf(),
        ensures
            final(self).wf(),
            final(self).next_id() == old(self).next_id(),
            r@ == expired_ids(old(self)@, now_ms),
            final(self)@ == still_waiting(old(self)@, now_ms),
    {
        let ghost all = self.entries@;
        let next = self.next_request_id;
        let mut rest = Vec::new();
        std::mem::swap(&mut rest, &mut self.entries);
        let mut kept: Vec<PendingRender> = Vec::new();
        let mut expired: Vec<u64> = Vec::new();
        let mut i: usize = 0;
        let total = rest.len();
        while rest.len() > 0
            invariant
                rest@.len() + i == total,
                total == all.len(),
                rest@ == all.subrange(i as int, total as int),
                ids_below(all, next),
                expired@ == expired_ids(all.subrange(0, i as int), now_ms),
                kept@ == still_waiting(all.subrange(0, i as int), now_ms),
                forall|a: int, b: int| 0 <= a < b < kept@.len() ==> #[trigger] kept@[a].request_id < #[trigger] kept@[b].request_id,
                forall|a: int| 0 <= a < kept@.len() ==> (#[trigger] kept@[a].request_id < next && (i < total ==> kept@[a].request_id < all[i as int].request_id)),
            decreases rest@.len(),
        {
            let pending = rest.remove(0);
            proof {
                assert(pending == all[i as int]);
                assert(all.subrange(0, i + 1).drop_last() =~= all.subrange(0, i as int));
                assert(all.subrange(0, i + 1).last() == all[i as int]);
                assert(rest@ =~= all.subrange(i + 1, total as int));
                if i + 1 < total {
                    assert(all[i as int].request_id < all[i + 1].request_id);
                }
            }
            if now_ms >= pending.deadline_ms {
                expired.push(pending.request_id);
            } else {
                kept.push(pending);
            }
            i = i + 1;
        }
        proof {
            assert(all.subrange(0, total as int) =~= all);
        }
        self.entries = kept;
        expired
    }

    /// Removes every waiting request and gives their ids, as when the runtime
    /// goes away.
    pub fn drain(&mut self) -> (r: Vec<u64>)
        requires
            old(self).wf(),
        ensures
            final(self).wf(),
            final(self).next_id() == old(self).next_id(),
            final(self)@ == Seq::<PendingRender>::empty(),
            r@ == request_ids(old(self)@),
    {
        let mut ids: Vec<u64> = Vec::new();
        let mut i: usize = 0;
        while i < self.entries.len()
            invariant
                i <= self.entries@.len(),
                ids@ == request_ids(self.entries@.subrange(0, i as int)),
            decreases self.entries@.len() - i,
        {
            ids.push(self.entries[i].request_id);
            i = i + 1;
            proof {
                assert(request_ids(self.entries@.subrange(0, i as int)) =~= request_ids(
                    self.entries@.subrange(0, i - 1),
                ).push(self.entries@[i - 1].request_id));
            }
        }
        proof {
            assert(self.entries@.subrange(0, self.entries@.len() as int) =~= self.entries@);
        }
        self.entries = Vec::new();
        ids
    }
}


/// Once the answer to a request is taken, no waiting request has its id: a
/// second answer with that id completes nothing.
pub proof fn law_request_completes_once(pending: PendingRenders, i: int)
    requires
        pending.wf(),
        0 <= i < pending@.len(),
    ensures
        forall|j: int| 0 <= j < pending@.remove(i).len() ==> #[trigger] pending@.remove(i)[j].request_id != pending@[i].request_id,
{
    let rest = pending@.remove(i);
    assert forall|j: int| 0 <= j < rest.len() implies #[trigger] rest[j].request_id != pending@[i].request_id by {
        let j0 = if j < i { j } else { j + 1 };
        assert(rest[j] == pending@[j0]);
        if j0 < i {
            assert(pending@[j0].request_id < pending@[i].request_id);
        } else {
            assert(pending@[i].request_id < pending@[j0].request_id);
        }
    }
}

/// Expiry loses no request: each waiting request either times out or keeps
/// waiting.
pub proof fn law_expiry_partitions(pending: Seq<PendingRender>, now_ms: u64)
    ensures
        expired_ids(pending, now_ms).len() + still_waiting(pending, now_ms).len() == pending.len(),
    decreases pending.len(),
{
    if pending.len() > 0 {
        law_expiry_partitions(pending.drop_last(), now_ms);
    }
}


} // verus!
