//! The renderer runtime's decisions: its side of the handshake, what it answers
//! each request, which brokered stylesheets and images a render may use, and
//! the image boxes that layout receives.

use vstd::prelude::*;

use crate::dom::{subtree, Document, KindView, NodeId, NodeKind, NodeView};
use crate::page::{element_attribute, inline_css, is_element, same_origin, same_origin_spec, stylesheet_list, stylesheet_urls, style_text};
use crate::protocol::{
    capability_set, handshake_answer, BrokeredResource, Capability, Envelope, Message, ProtocolError,
    ProtocolLimits, Request, ResourceKind, Response, ServerHandshake, PROTOCOL_MAJOR, PROTOCOL_MINOR,
};
use crate::text::{decimal, decimal_string, push_char, str_eq, utf8_text};
use crate::types::{NavigationId, PageId};
use crate::url::{spec_url_join, spec_url_parse, WebUrl};

verus! {

#[derive(Clone, Debug)]
pub enum RuntimeError {
    Protocol(ProtocolError),
    Flush(String),
}

/// An image as layout places it: its source, its alternative text, its size, and
/// whether its pixels were decoded.
#[derive(Clone, Debug)]
pub struct ImageBox {
    pub source: String,
    pub alt: String,
    pub intrinsic_width: u32,
    pub intrinsic_height: u32,
    pub loaded: bool,
}

/// The box of an image whose pixels are not available: 160 by 32 pixels.
pub fn image_fallback(source: String, alt: String) -> (r: ImageBox)
    ensures
        r.source@ == source@,
        r.alt@ == alt@,
        r.intrinsic_width == 160,
        r.intrinsic_height == 32,
        !r.loaded,
{
    ImageBox { source, alt, intrinsic_width: 160, intrinsic_height: 32, loaded: false }
}

/// The capabilities that the runtime offers.
pub fn runtime_capabilities() -> (r: Vec<Capability>)
    ensures
        r@.len() == 4,
        r@[0]@ == "static_document"@,
        r@[1]@ == "display_list_v1"@,
        r@[2]@ == "cancellable_navigation"@,
        r@[3]@ == "resource_broker_v1"@,
{
    let mut capabilities: Vec<Capability> = Vec::new();
    capabilities.push(Capability::static_document());
    capabilities.push(Capability::display_list_v1());
    capabilities.push(Capability::cancellable_navigation());
    capabilities.push(Capability::resource_broker_v1());
    capabilities
}

/// The runtime's side of the handshake: protocol minor [`PROTOCOL_MINOR`], its
/// capabilities and the default limits.
pub fn runtime_handshake() -> (r: ServerHandshake)
    ensures
        r.supported_protocol_minor == PROTOCOL_MINOR,
        r.capabilities@.len() == 4,
        capability_set(r.capabilities@) == runtime_offered(),
        r.limits == (ProtocolLimits {
            max_frame_body_bytes: 16777216,
            max_in_flight_requests: 64,
            max_event_queue: 256,
            max_in_flight_bytes: 67108864,
        }),
{
    let capabilities = runtime_capabilities();
    proof {
        let names = capabilities@;
        assert forall|name: Seq<char>| #[trigger] capability_set(names).contains(name) == runtime_offered().contains(name) by {
            if runtime_offered().contains(name) {
                if name == "static_document"@ {
                    assert(names[0]@ == name);
                } else if name == "display_list_v1"@ {
                    assert(names[1]@ == name);
                } else if name == "cancellable_navigation"@ {
                    assert(names[2]@ == name);
                } else {
                    assert(names[3]@ == name);
                }
            }
        }
        assert(capability_set(names) =~= runtime_offered());
    }
    ServerHandshake::new(PROTOCOL_MINOR, capabilities, ProtocolLimits::default())
}

/// The names of the capabilities that the runtime offers.
pub open spec fn runtime_offered() -> Set<Seq<char>> {
    set!["static_document"@, "display_list_v1"@, "cancellable_navigation"@, "resource_broker_v1"@]
}

/// The limits that the runtime announces.
pub open spec fn runtime_limits() -> ProtocolLimits {
    ProtocolLimits {
        max_frame_body_bytes: 16777216,
        max_in_flight_requests: 64,
        max_event_queue: 256,
        max_in_flight_bytes: 67108864,
    }
}

/// Answers the client's hello; the runtime goes on serving only when it
/// answered with a server hello.
pub fn answer_hello(request: &Envelope) -> (r: Result<(Envelope, bool), ProtocolError>)
    ensures
        match r {
            Ok((response, serving)) => handshake_answer(
                PROTOCOL_MINOR,
                runtime_offered(),
                runtime_limits(),
                *request,
                Ok(response),
            ) && serving == (response.message is ServerHello),
            Err(error) => handshake_answer(PROTOCOL_MINOR, runtime_offered(), runtime_limits(), *request, Err(error)),
        },
{
    let handshake = runtime_handshake();
    match handshake.handle(request) {
        Ok(response) => {
            let serving = match &response.message {
                Message::ServerHello(_) => true,
                _ => false,
            };
            Ok((response, serving))
        },
        Err(error) => Err(error),
    }
}

/// What the runtime does with a request after the handshake.
#[derive(Debug)]
pub enum RequestOutcome {
    /// Answer at once.
    Respond(Response),
    /// Render the document and answer with the result.
    Render {
        page_id: PageId,
        navigation_id: NavigationId,
        url: String,
        html: String,
        viewport_width_px: u16,
        resources: Vec<BrokeredResource>,
    },
}

/// A failure answer with code `code` and message `message`.
pub open spec fn is_failure(outcome: RequestOutcome, code: Seq<char>, message: Seq<char>) -> bool {
    outcome matches RequestOutcome::Respond(Response::Failed { code: c, message: m }) && c@ == code
        && m@ == message
}

fn failure(code: &str, message: &str) -> (r: RequestOutcome)
    ensures
        is_failure(r, code@, message@),
{
    RequestOutcome::Respond(
        Response::Failed { code: String::from_str(code), message: String::from_str(message) },
    )
}

/// What the runtime answers `envelope` after the handshake: a version other
/// than the negotiated one fails; a render with a zero or too wide viewport
/// fails; a render is made; a navigation is accepted; a cancellation is
/// confirmed; anything else fails.
pub open spec fn answers(envelope: Envelope, r: RequestOutcome) -> bool {
    &&& (envelope.protocol_major != PROTOCOL_MAJOR || envelope.protocol_minor != PROTOCOL_MINOR ==> is_failure(
            r,
            "unsupported_protocol_version"@,
            "request protocol version does not match the negotiated version"@,
        ))
    &&& (envelope.protocol_major == PROTOCOL_MAJOR && envelope.protocol_minor == PROTOCOL_MINOR ==> match envelope.message {
            Message::Request(Request::RenderDocument { page_id, navigation_id, url, html, viewport_width_px, resources }) =>
                if viewport_width_px == 0 {
                    is_failure(r, "invalid_viewport"@, "viewport width must be greater than zero"@)
                } else if viewport_width_px > 65535 {
                    is_failure(r, "invalid_viewport"@, "viewport width exceeds 65535 pixels"@)
                } else {
                    r matches RequestOutcome::Render { page_id: p, navigation_id: n, url: u, html: h, viewport_width_px: w, resources: res }
                        && p.0@ == page_id.0@ && n == navigation_id && u@ == url@ && h@ == html@ && w == viewport_width_px
                        && res@ == resources@
                },
            Message::Request(Request::Navigate { .. }) => r matches RequestOutcome::Respond(Response::Accepted),
            Message::Request(Request::Cancel { target_request_id }) => r matches RequestOutcome::Respond(
                Response::Cancelled { target_request_id: t },
            ) && t == target_request_id,
            _ => is_failure(
                r,
                "unexpected_message"@,
                "runtime accepts request messages after the handshake"@,
            ),
        })
}

pub fn request_outcome(envelope: Envelope) -> (r: RequestOutcome)
    ensures
        answers(envelope, r),
{
    if envelope.protocol_major != PROTOCOL_MAJOR || envelope.protocol_minor != PROTOCOL_MINOR {
        return failure(
            "unsupported_protocol_version",
            "request protocol version does not match the negotiated version",
        );
    }
    match envelope.message {
        Message::Request(Request::RenderDocument { page_id, navigation_id, url, html, viewport_width_px, resources }) => {
            if viewport_width_px == 0 {
                failure("invalid_viewport", "viewport width must be greater than zero")
            } else if viewport_width_px > 65535 {
                failure("invalid_viewport", "viewport width exceeds 65535 pixels")
            } else {
                RequestOutcome::Render {
                    page_id,
                    navigation_id,
                    url,
                    html,
                    viewport_width_px: viewport_width_px as u16,
                    resources,
                }
            }
        },
        Message::Request(Request::Navigate { .. }) => RequestOutcome::Respond(Response::Accepted),
        Message::Request(Request::Cancel { target_request_id }) => RequestOutcome::Respond(
            Response::Cancelled { target_request_id },
        ),
        _ => failure("unexpected_message", "runtime accepts request messages after the handshake"),
    }
}

/// Where the runtime is in serving one connection.
#[derive(Clone, Copy, Debug, PartialEq, Eq, Structural)]
pub enum ServePhase {
    /// Waiting for the client's hello.
    AwaitingHello,
    /// Answering requests.
    Serving,
    /// Done with the connection.
    Closed,
}

/// What reading the connection gave.
#[derive(Debug)]
pub enum ServeEvent {
    /// A whole frame.
    Frame(Envelope),
    /// The input ended cleanly before a frame.
    EndOfInput,
    /// Reading or decoding failed.
    ReadFailed(ProtocolError),
}

/// What the runtime does next on its connection.
#[derive(Debug)]
pub enum ServeAction {
    /// Write this envelope.
    Send(Envelope),
    /// Answer request `request_id` as `outcome` says.
    Answer { request_id: u64, outcome: RequestOutcome },
    /// Stop serving; the connection ended well.
    Finish,
    /// Stop serving with this error.
    Fail(RuntimeError),
}

/// One step of serving a connection: the hello is answered first and serving
/// goes on only after a server hello; after it each frame is a request to
/// answer; the end of the input ends serving well, a failed read with an error.
pub fn serve_step(phase: ServePhase, event: ServeEvent) -> (r: (ServePhase, ServeAction))
    ensures
        phase == ServePhase::Closed ==> r.0 == ServePhase::Closed && r.1 is Finish,
        phase != ServePhase::Closed && event is EndOfInput ==> r.0 == ServePhase::Closed && r.1 is Finish,
        event matches ServeEvent::ReadFailed(error) ==> (phase != ServePhase::Closed ==> r.0 == ServePhase::Closed
            && r.1 == ServeAction::Fail(RuntimeError::Protocol(error))),
        event matches ServeEvent::Frame(request) ==> (phase == ServePhase::AwaitingHello ==> match r.1 {
            ServeAction::Send(response) => handshake_answer(
                PROTOCOL_MINOR,
                runtime_offered(),
                runtime_limits(),
                request,
                Ok(response),
            ) && r.0 == (if response.message is ServerHello {
                ServePhase::Serving
            } else {
                ServePhase::Closed
            }),
            ServeAction::Fail(RuntimeError::Protocol(error)) => handshake_answer(
                PROTOCOL_MINOR,
                runtime_offered(),
                runtime_limits(),
                request,
                Err(error),
            ) && r.0 == ServePhase::Closed,
            _ => false,
        }),
        event matches ServeEvent::Frame(request) ==> (phase == ServePhase::Serving ==> (r.0 == ServePhase::Serving
            && (r.1 matches ServeAction::Answer { request_id, outcome } && request_id == request.request_id
            && answers(request, outcome)))),
{
    match phase {
        ServePhase::Closed => (ServePhase::Closed, ServeAction::Finish),
        ServePhase::AwaitingHello => match event {
            ServeEvent::EndOfInput => (ServePhase::Closed, ServeAction::Finish),
            ServeEvent::ReadFailed(error) => (ServePhase::Closed, ServeAction::Fail(RuntimeError::Protocol(error))),
            ServeEvent::Frame(request) => match answer_hello(&request) {
                Ok((response, serving)) => {
                    let next = if serving {
                        ServePhase::Serving
                    } else {
                        ServePhase::Closed
                    };
                    (next, ServeAction::Send(response))
                },
                Err(error) => (ServePhase::Closed, ServeAction::Fail(RuntimeError::Protocol(error))),
            },
        },
        ServePhase::Serving => match event {
            ServeEvent::EndOfInput => (ServePhase::Closed, ServeAction::Finish),
            ServeEvent::ReadFailed(error) => (ServePhase::Closed, ServeAction::Fail(RuntimeError::Protocol(error))),
            ServeEvent::Frame(request) => {
                let request_id = request.request_id;
                (ServePhase::Serving, ServeAction::Answer { request_id, outcome: request_outcome(request) })
            },
        },
    }
}

/// The envelope that carries the answer to request `request_id`.
pub fn response_envelope(request_id: u64, response: Response) -> (r: Envelope)
    ensures
        r.protocol_major == PROTOCOL_MAJOR,
        r.protocol_minor == PROTOCOL_MINOR,
        r.request_id == request_id,
        r.message == Message::Response(response),
{
    Envelope::v4(request_id, Message::Response(response))
}

/// Whether a brokered resource may be used by the document at `base`: both its
/// requested and its final URL parse and have the document's origin.
pub open spec fn resource_same_origin_spec(base: Seq<char>, requested: Seq<char>, final_url: Seq<char>) -> bool {
    match (spec_url_parse(requested), spec_url_parse(final_url)) {
        (Ok(a), Ok(b)) => same_origin_spec(base, a) && same_origin_spec(base, b),
        _ => false,
    }
}

pub fn resource_is_same_origin(base: &WebUrl, resource: &BrokeredResource) -> (r: bool)
    ensures
        r == resource_same_origin_spec(base@, resource.requested_url@, resource.final_url@),
{
    let requested = match WebUrl::parse(resource.requested_url.as_str()) {
        Ok(url) => url,
        Err(_) => {
            return false;
        },
    };
    let final_url = match WebUrl::parse(resource.final_url.as_str()) {
        Ok(url) => url,
        Err(_) => {
            return false;
        },
    };
    same_origin(base, &requested) && same_origin(base, &final_url)
}

/// The CSS that a render uses, and its notes: the inline styles, then each
/// brokered stylesheet that a `link` of the document refers to, in the order the
/// resources came, when it has the document's origin and is UTF-8.
pub open spec fn stylesheet_step(
    referenced: Seq<Seq<char>>,
    base: Seq<char>,
    resource: BrokeredResource,
    css: Seq<char>,
    notes: Seq<Seq<char>>,
) -> (Seq<char>, Seq<Seq<char>>) {
    if !(resource.kind == ResourceKind::Stylesheet && referenced.contains(resource.requested_url@)) {
        (css, notes)
    } else if !resource_same_origin_spec(base, resource.requested_url@, resource.final_url@) {
        (css, notes.push("ignored brokered stylesheet outside document origin: "@ + resource.requested_url@))
    } else if vstd::utf8::valid_utf8(resource.body@) {
        (css + vstd::utf8::decode_utf8(resource.body@).push('\n'), notes)
    } else {
        (css, notes.push("ignored non-UTF-8 stylesheet: "@ + resource.requested_url@))
    }
}

pub open spec fn stylesheets_spec(
    referenced: Seq<Seq<char>>,
    base: Seq<char>,
    resources: Seq<BrokeredResource>,
    start: (Seq<char>, Seq<Seq<char>>),
) -> (Seq<char>, Seq<Seq<char>>)
    decreases resources.len(),
{
    if resources.len() == 0 {
        start
    } else {
        let previous = stylesheets_spec(referenced, base, resources.drop_last(), start);
        stylesheet_step(referenced, base, resources.last(), previous.0, previous.1)
    }
}

/// The CSS source of a render and the notes about the stylesheets it left out.
pub fn stylesheet_source(document: &Document, base: &WebUrl, resources: &Vec<BrokeredResource>) -> (r: (
    String,
    Vec<String>,
))
    requires
        document.wf(),
    ensures
        (r.0@, r.1@.map_values(|s: String| s@)) == stylesheets_spec(
            stylesheet_list(document@, subtree(document@, 0), base@),
            base@,
            resources@,
            (style_text(document@, subtree(document@, 0)), Seq::empty()),
        ),
{
    let mut output = inline_css(document);
    let links = stylesheet_urls(document, base);
    let ghost referenced = links@.map_values(|u: WebUrl| u@);
    let mut notes: Vec<String> = Vec::new();
    let mut i: usize = 0;
    proof {
        assert(notes@.map_values(|s: String| s@) =~= Seq::<Seq<char>>::empty());
        assert(resources@.subrange(0, 0) =~= Seq::<BrokeredResource>::empty());
    }
    while i < resources.len()
        invariant
            i <= resources.len(),
            referenced == links@.map_values(|u: WebUrl| u@),
            (output@, notes@.map_values(|s: String| s@)) == stylesheets_spec(
                referenced,
                base@,
                resources@.subrange(0, i as int),
                (style_text(document@, subtree(document@, 0)), Seq::empty()),
            ),
        decreases resources.len() - i,
    {
        let resource = &resources[i];
        let ghost before_notes = notes@.map_values(|s: String| s@);
        proof {
            assert(resources@.subrange(0, i + 1).drop_last() =~= resources@.subrange(0, i as int));
            assert(resources@.subrange(0, i + 1).last() == *resource);
        }
        let mut linked = false;
        if resource.kind == ResourceKind::Stylesheet {
            let mut k: usize = 0;
            while k < links.len()
                invariant
                    k <= links.len(),
                    referenced == links@.map_values(|u: WebUrl| u@),
                    linked == exists|j: int| 0 <= j < k && referenced[j] == resource.requested_url@,
                decreases links.len() - k,
            {
                if str_eq(links[k].as_str(), resource.requested_url.as_str()) {
                    proof {
                        assert(referenced[k as int] == links@[k as int]@);
                    }
                    linked = true;
                }
                k = k + 1;
            }
        }
        proof {
            if resource.kind == ResourceKind::Stylesheet {
                if referenced.contains(resource.requested_url@) {
                    let j = choose|j: int| 0 <= j < referenced.len() && referenced[j] == resource.requested_url@;
                    assert(0 <= j < links@.len());
                }
            }
        }
        if linked {
            if !resource_is_same_origin(base, resource) {
                let mut note = String::from_str("ignored brokered stylesheet outside document origin: ");
                note.append(resource.requested_url.as_str());
                notes.push(note);
                proof {
                    assert(notes@.map_values(|s: String| s@) =~= before_notes.push(note@));
                }
            } else {
                match utf8_text(resource.body.as_slice()) {
                    Some(css) => {
                        proof {
                            vstd::utf8::encode_utf8_decode_utf8(css@);
                            vstd::utf8::encode_utf8_valid_utf8(css@);
                        }
                        output.append(css.as_str());
                        push_char(&mut output, '\n');
                    },
                    None => {
                        let mut note = String::from_str("ignored non-UTF-8 stylesheet: ");
                        note.append(resource.requested_url.as_str());
                        notes.push(note);
                        proof {
                            assert(notes@.map_values(|s: String| s@) =~= before_notes.push(note@));
                        }
                    },
                }
            }
        }
        i = i + 1;
    }
    proof {
        assert(resources@.subrange(0, resources@.len() as int) =~= resources@);
    }
    (output, notes)
}

/// What `image::load_from_memory` makes of `bytes`: the decoded width and height,
/// or the message of the decoding error.
pub uninterp spec fn spec_image_decode(bytes: Seq<u8>) -> Result<(u32, u32), Seq<char>>;

/// Calls `image::load_from_memory`; the size of the decoded image, or the
/// decoder's message, is named by [`spec_image_decode`].
#[verifier::external_body]
pub(crate) fn decode_image_dimensions(bytes: &[u8]) -> (r: Result<(u32, u32), String>)
    ensures
        match r {
            Ok(size) => spec_image_decode(bytes@) == Ok::<(u32, u32), Seq<char>>(size),
            Err(message) => spec_image_decode(bytes@) == Err::<(u32, u32), Seq<char>>(message@),
        },
{
    match image::load_from_memory(bytes) {
        Ok(decoded) => Ok((decoded.width(), decoded.height())),
        Err(error) => Err(error.to_string()),
    }
}

/// The last brokered image, usable by the document, that was requested as `source`.
pub open spec fn image_for(base: Seq<char>, resources: Seq<BrokeredResource>, source: Seq<char>) -> Option<int>
    decreases resources.len(),
{
    if resources.len() == 0 {
        None
    } else {
        let last = resources.last();
        if last.kind == ResourceKind::Image && resource_same_origin_spec(base, last.requested_url@, last.final_url@)
            && last.requested_url@ == source {
            Some(resources.len() - 1)
        } else {
            image_for(base, resources.drop_last(), source)
        }
    }
}

fn find_image(base: &WebUrl, resources: &Vec<BrokeredResource>, source: &str) -> (r: Option<usize>)
    ensures
        match r {
            Some(i) => image_for(base@, resources@, source@) == Some(i as int) && i < resources@.len(),
            None => image_for(base@, resources@, source@) is None,
        },
{
    let mut i: usize = resources.len();
    proof {
        assert(resources@.subrange(0, resources@.len() as int) =~= resources@);
    }
    while i > 0
        invariant
            i <= resources.len(),
            image_for(base@, resources@, source@) == image_for(base@, resources@.subrange(0, i as int), source@),
        decreases i,
    {
        let resource = &resources[i - 1];
        proof {
            assert(resources@.subrange(0, i as int).last() == *resource);
            assert(resources@.subrange(0, i as int).drop_last() =~= resources@.subrange(0, i - 1));
        }
        if resource.kind == ResourceKind::Image && resource_is_same_origin(base, resource) && str_eq(
            resource.requested_url.as_str(),
            source,
        ) {
            return Some(i - 1);
        }
        i = i - 1;
    }
    None
}

proof fn lemma_image_for_bounded(base: Seq<char>, resources: Seq<BrokeredResource>, source: Seq<char>)
    ensures
        image_for(base, resources, source) matches Some(i) ==> 0 <= i < resources.len(),
    decreases resources.len(),
{
    if resources.len() > 0 {
        lemma_image_for_bounded(base, resources.drop_last(), source);
    }
}

/// The number of attributes whose name begins with `on` in any ASCII case.
pub open spec fn event_attributes_any_case(attributes: Seq<(Seq<char>, Seq<char>)>) -> nat
    decreases attributes.len(),
{
    if attributes.len() == 0 {
        0
    } else {
        (if crate::text::starts_with(crate::text::ascii_lower(attributes[0].0), "on"@) {
            1nat
        } else {
            0nat
        }) + event_attributes_any_case(attributes.drop_first())
    }
}

/// The number of inline event attributes, in any ASCII case, of the elements among `ids`.
pub open spec fn event_count_any_case(nodes: Seq<NodeView>, ids: Seq<int>) -> nat
    decreases ids.len(),
{
    if ids.len() == 0 {
        0
    } else {
        (match nodes[ids[0]].kind {
            KindView::Element { attributes, .. } => event_attributes_any_case(attributes),
            _ => 0,
        }) + event_count_any_case(nodes, ids.drop_first())
    }
}

/// The renderer's notes about ignored active content: scripts, and inline event
/// attributes in any ASCII case.
pub open spec fn runtime_diagnostics_spec(nodes: Seq<NodeView>) -> Seq<Seq<char>> {
    let all = subtree(nodes, 0);
    let scripts = crate::page::script_count(nodes, all);
    let events = event_count_any_case(nodes, all);
    (if scripts > 0 {
        seq![crate::page::script_message(scripts)]
    } else {
        Seq::empty()
    }) + (if events > 0 {
        seq![crate::page::event_message(events)]
    } else {
        Seq::empty()
    })
}

fn count_event_attributes_any_case(attributes: &Vec<(String, String)>) -> (r: usize)
    ensures
        r == event_attributes_any_case(crate::dom::attributes_view(attributes@)),
{
    let ghost all = crate::dom::attributes_view(attributes@);
    proof {
        assert(all.subrange(0, all.len() as int) =~= all);
    }
    let mut count: usize = 0;
    let mut i: usize = 0;
    while i < attributes.len()
        invariant
            i <= attributes.len(),
            all == crate::dom::attributes_view(attributes@),
            count <= i,
            event_attributes_any_case(all) == count + event_attributes_any_case(
                all.subrange(i as int, all.len() as int),
            ),
        decreases attributes.len() - i,
    {
        proof {
            let rest = all.subrange(i as int, all.len() as int);
            assert(rest.drop_first() =~= all.subrange(i + 1, all.len() as int));
            assert(rest[0] == all[i as int]);
        }
        let lower = crate::text::ascii_lowercase(attributes[i].0.as_str());
        if crate::text::str_starts_with(lower.as_str(), "on") {
            count = count + 1;
        }
        i = i + 1;
    }
    proof {
        assert(all.subrange(all.len() as int, all.len() as int) =~= Seq::<(Seq<char>, Seq<char>)>::empty());
    }
    count
}

/// Notes the scripts and inline event attributes (in any ASCII case) that the
/// renderer ignores.
pub fn document_diagnostics(document: &Document) -> (r: Vec<String>)
    requires
        document.wf(),
        crate::page::script_count(document@, subtree(document@, 0)) <= usize::MAX,
        event_count_any_case(document@, subtree(document@, 0)) <= usize::MAX,
    ensures
        r@.map_values(|s: String| s@) == runtime_diagnostics_spec(document@),
{
    let ghost nodes = document@;
    let ghost all = subtree(nodes, 0);
    let mut walk = document.descendants(document.root());
    let mut scripts: usize = 0;
    let mut events: usize = 0;
    loop
        invariant
            document.wf(),
            nodes == document@,
            all == subtree(nodes, 0),
            walk.wf(),
            walk.nodes() == nodes,
            crate::page::script_count(nodes, all) <= usize::MAX,
            event_count_any_case(nodes, all) <= usize::MAX,
            crate::page::script_count(nodes, all) == scripts + crate::page::script_count(nodes, walk.remaining()),
            event_count_any_case(nodes, all) == events + event_count_any_case(nodes, walk.remaining()),
        ensures
            crate::page::script_count(nodes, all) == scripts,
            event_count_any_case(nodes, all) == events,
        decreases walk.remaining().len(),
    {
        match walk.next() {
            None => {
                break;
            },
            Some(node) => {
                match &node.kind {
                    NodeKind::Element(element) => {
                        if str_eq(element.name.as_str(), "script") {
                            scripts = scripts + 1;
                        }
                        let found = count_event_attributes_any_case(&element.attributes);
                        events = events + found;
                    },
                    _ => {},
                }
            },
        }
    }
    let mut diagnostics: Vec<String> = Vec::new();
    if scripts > 0 {
        let mut note = String::from_str("ignored ");
        note.append(decimal_string(scripts).as_str());
        note.append(" script element(s); JavaScript is disabled");
        diagnostics.push(note);
    }
    if events > 0 {
        let mut note = String::from_str("ignored ");
        note.append(decimal_string(events).as_str());
        note.append(" inline event attribute(s); JavaScript is disabled");
        diagnostics.push(note);
    }
    proof {
        assert(diagnostics@.map_values(|s: String| s@) =~= runtime_diagnostics_spec(nodes));
    }
    diagnostics
}

/// An image box as mathematical values.
pub struct ImageView {
    pub source: Seq<char>,
    pub alt: Seq<char>,
    pub width: u32,
    pub height: u32,
    pub loaded: bool,
}

pub open spec fn image_view(image: ImageBox) -> ImageView {
    ImageView {
        source: image.source@,
        alt: image.alt@,
        width: image.intrinsic_width,
        height: image.intrinsic_height,
        loaded: image.loaded,
    }
}

pub open spec fn fallback_view(source: Seq<char>, alt: Seq<char>) -> ImageView {
    ImageView { source, alt, width: 160, height: 32, loaded: false }
}

/// The box of image element `id`, and the note it leaves, if any: an image whose
/// source does not resolve, or that no usable brokered image answers, or whose
/// bytes do not decode, falls back to the default box.
pub open spec fn image_piece(
    nodes: Seq<NodeView>,
    id: int,
    base: Seq<char>,
    resources: Seq<BrokeredResource>,
) -> (Seq<(int, ImageView)>, Seq<Seq<char>>) {
    if !is_element(nodes, id, "img"@) {
        (Seq::empty(), Seq::empty())
    } else {
        let alt = crate::page::or_default(element_attribute(nodes, id, "alt"@), Seq::empty());
        let joined = match element_attribute(nodes, id, "src"@) {
            Some(src) => match spec_url_join(base, src) {
                Ok(url) => Some(url),
                Err(_) => None,
            },
            None => None,
        };
        match joined {
            None => (seq![(id, fallback_view(Seq::empty(), alt))], seq!["ignored image with invalid source"@]),
            Some(source) => match image_for(base, resources, source) {
                None => (seq![(id, fallback_view(source, alt))], Seq::empty()),
                Some(i) => match spec_image_decode(resources[i].body@) {
                    Ok((width, height)) => (
                        seq![(id, ImageView { source, alt, width, height, loaded: true })],
                        Seq::empty(),
                    ),
                    Err(message) => (
                        seq![(id, fallback_view(source, alt))],
                        seq!["could not decode image "@ + source + ": "@ + message],
                    ),
                },
            },
        }
    }
}

/// The boxes of the image elements among `ids`, in order, and their notes.
pub open spec fn images_spec(
    nodes: Seq<NodeView>,
    ids: Seq<int>,
    base: Seq<char>,
    resources: Seq<BrokeredResource>,
) -> (Seq<(int, ImageView)>, Seq<Seq<char>>)
    decreases ids.len(),
{
    if ids.len() == 0 {
        (Seq::empty(), Seq::empty())
    } else {
        let head = image_piece(nodes, ids[0], base, resources);
        let rest = images_spec(nodes, ids.drop_first(), base, resources);
        (head.0 + rest.0, head.1 + rest.1)
    }
}

/// The image box of each `img` element, in document order, and the notes about
/// the images that fell back to the default box.
pub fn image_boxes(document: &Document, base: &WebUrl, resources: &Vec<BrokeredResource>) -> (r: (
    Vec<(NodeId, ImageBox)>,
    Vec<String>,
))
    requires
        document.wf(),
    ensures
        (
            r.0@.map_values(|e: (NodeId, ImageBox)| (e.0.0 as int, image_view(e.1))),
            r.1@.map_values(|s: String| s@),
        ) == images_spec(document@, subtree(document@, 0), base@, resources@),
{
    let ghost nodes = document@;
    let ghost all = subtree(nodes, 0);
    let mut walk = document.descendants(document.root());
    let mut boxes: Vec<(NodeId, ImageBox)> = Vec::new();
    let mut notes: Vec<String> = Vec::new();
    loop
        invariant
            document.wf(),
            nodes == document@,
            all == subtree(nodes, 0),
            walk.wf(),
            walk.nodes() == nodes,
            images_spec(nodes, all, base@, resources@) == (
                boxes@.map_values(|e: (NodeId, ImageBox)| (e.0.0 as int, image_view(e.1)))
                    + images_spec(nodes, walk.remaining(), base@, resources@).0,
                notes@.map_values(|s: String| s@) + images_spec(nodes, walk.remaining(), base@, resources@).1,
            ),
        ensures
            images_spec(nodes, all, base@, resources@) == (
                boxes@.map_values(|e: (NodeId, ImageBox)| (e.0.0 as int, image_view(e.1))),
                notes@.map_values(|s: String| s@),
            ),
        decreases walk.remaining().len(),
    {
        let ghost before = walk.remaining();
        let ghost old_boxes = boxes@.map_values(|e: (NodeId, ImageBox)| (e.0.0 as int, image_view(e.1)));
        let ghost old_notes = notes@.map_values(|s: String| s@);
        match walk.next() {
            None => {
                proof {
                    assert(old_boxes + Seq::<(int, ImageView)>::empty() =~= old_boxes);
                    assert(old_notes + Seq::<Seq<char>>::empty() =~= old_notes);
                }
                break;
            },
            Some(node) => {
                let ghost id = before[0];
                proof {
                    document.lemma_nodes_well_formed();
                    assert(node.id.0 == id);
                }
                let ghost piece = image_piece(nodes, id, base@, resources@);
                match &node.kind {
                    NodeKind::Element(element) => {
                        if str_eq(element.name.as_str(), "img") {
                            let alt = match element.attribute("alt") {
                                Some(alt) => String::from_str(alt),
                                None => String::new(),
                            };
                            let joined = match element.attribute("src") {
                                Some(src) => match base.join(src) {
                                    Ok(url) => Some(url),
                                    Err(_) => None,
                                },
                                None => None,
                            };
                            match joined {
                                None => {
                                    notes.push(String::from_str("ignored image with invalid source"));
                                    let entry = (node.id, image_fallback(String::new(), alt));
                                    boxes.push(entry);
                                },
                                Some(url) => {
                                    let source = url.to_string();
                                    match find_image(base, resources, source.as_str()) {
                                        None => {
                                            let entry = (node.id, image_fallback(source, alt));
                                            boxes.push(entry);
                                        },
                                        Some(i) => {
                                            match decode_image_dimensions(resources[i].body.as_slice()) {
                                                Ok((width, height)) => {
                                                    let entry = (
                                                        node.id,
                                                        ImageBox {
                                                            source,
                                                            alt,
                                                            intrinsic_width: width,
                                                            intrinsic_height: height,
                                                            loaded: true,
                                                        },
                                                    );
                                                    boxes.push(entry);
                                                },
                                                Err(message) => {
                                                    let mut note = String::from_str("could not decode image ");
                                                    note.append(source.as_str());
                                                    note.append(": ");
                                                    note.append(message.as_str());
                                                    notes.push(note);
                                                    let entry = (node.id, image_fallback(source, alt));
                                                    boxes.push(entry);
                                                },
                                            }
                                        },
                                    }
                                },
                            }
                        }
                    },
                    _ => {},
                }
                proof {
                    assert(images_spec(nodes, before, base@, resources@) == (
                        piece.0 + images_spec(nodes, walk.remaining(), base@, resources@).0,
                        piece.1 + images_spec(nodes, walk.remaining(), base@, resources@).1,
                    ));
                    assert(boxes@.map_values(|e: (NodeId, ImageBox)| (e.0.0 as int, image_view(e.1)))
                        =~= old_boxes + piece.0);
                    assert(notes@.map_values(|s: String| s@) =~= old_notes + piece.1);
                    assert(old_boxes + (piece.0 + images_spec(nodes, walk.remaining(), base@, resources@).0)
                        =~= (old_boxes + piece.0) + images_spec(nodes, walk.remaining(), base@, resources@).0);
                    assert(old_notes + (piece.1 + images_spec(nodes, walk.remaining(), base@, resources@).1)
                        =~= (old_notes + piece.1) + images_spec(nodes, walk.remaining(), base@, resources@).1);
                }
            },
        }
    }
    (boxes, notes)
}

} // verus!
