//! The resource broker: the browser loads a document and the stylesheets and
//! images it links to on the renderer's behalf, each once, from the document's
//! origin only, within a byte budget, and tells the renderer what it ignored.
//! The transfers are made by the application; this module decides what is
//! loaded and keeps what came back.

use vstd::prelude::*;

use crate::dom::{subtree, Document, NodeKind, NodeView};
use crate::net::{load_error_text, LoadError, ResponseBytes};
use crate::page::{element_attribute, is_element, same_origin};
use crate::protocol::codec::Codec;
use crate::protocol::{BrokeredResource, ProtocolError, ResourceBytes, ResourceKind};
use crate::supervisor::StaticDocument;
use crate::text::{contains_word, decimal, decimal_string, has_word, str_eq, utf8_text};
use crate::types::{NavigationId, PageId};
use crate::url::{spec_url_host, spec_url_join, spec_url_port, spec_url_scheme, WebUrl};

verus! {

/// The largest document that the broker loads.
pub const DOCUMENT_BYTE_LIMIT: usize = 4194304;

/// The largest single stylesheet or image that the broker loads.
pub const RESOURCE_BYTE_LIMIT: usize = 4194304;

/// The bytes of all stylesheets and images of one document together.
pub const TOTAL_RESOURCE_BYTE_LIMIT: usize = 8388608;

/// A document to broker for a page.
#[derive(Debug)]
pub struct BrokerRequest {
    pub page_id: PageId,
    pub navigation_id: NavigationId,
    pub url: WebUrl,
    pub viewport_width_px: u32,
}

/// Why a document could not be brokered.
#[derive(Debug)]
pub enum BrokerError {
    DocumentLoad { url: String, source: LoadError },
    DocumentEncoding { url: String },
    InvalidUrl(String),
    InvalidViewport,
    Frame(String),
}

/// The word for a kind of resource in diagnostics.
pub open spec fn resource_word(kind: ResourceKind) -> Seq<char> {
    match kind {
        ResourceKind::Stylesheet => "stylesheet"@,
        ResourceKind::Image => "image"@,
    }
}

/// The word for a kind of resource in diagnostics.
pub fn resource_name(kind: ResourceKind) -> (r: &'static str)
    ensures
        r@ == resource_word(kind),
{
    match kind {
        ResourceKind::Stylesheet => "stylesheet",
        ResourceKind::Image => "image",
    }
}

/// A viewport must be between 1 and 65535 pixels wide.
pub fn check_viewport(viewport_width_px: u32) -> (r: Result<(), BrokerError>)
    ensures
        r is Ok <==> 1 <= viewport_width_px <= 65535,
        r matches Err(error) ==> error is InvalidViewport,
{
    if viewport_width_px == 0 || viewport_width_px > 65535 {
        Err(BrokerError::InvalidViewport)
    } else {
        Ok(())
    }
}

/// The document's text: its bytes must be UTF-8.
pub fn document_text(response: &ResponseBytes) -> (r: Result<String, BrokerError>)
    ensures
        vstd::utf8::valid_utf8(response.body@) ==> (r matches Ok(text) && vstd::utf8::encode_utf8(text@)
            == response.body@),
        !vstd::utf8::valid_utf8(response.body@) ==> (r matches Err(BrokerError::DocumentEncoding { url })
            && url@ == response.final_url@),
{
    match utf8_text(response.body.as_slice()) {
        Some(text) => {
            proof {
                vstd::utf8::encode_utf8_valid_utf8(text@);
            }
            Ok(text)
        },
        None => Err(BrokerError::DocumentEncoding { url: response.final_url.to_string() }),
    }
}

/// What node `id` asks to load: the `href` of a `link` whose `rel` has the
/// token `stylesheet`, or the `src` of an `img`.
pub open spec fn resource_reference(nodes: Seq<NodeView>, id: int) -> Option<(ResourceKind, Seq<char>)> {
    let is_stylesheet = match element_attribute(nodes, id, "rel"@) {
        Some(rel) => has_word(rel, "stylesheet"@),
        None => false,
    };
    if is_element(nodes, id, "link"@) && is_stylesheet {
        match element_attribute(nodes, id, "href"@) {
            Some(href) => Some((ResourceKind::Stylesheet, href)),
            None => None,
        }
    } else if is_element(nodes, id, "img"@) {
        match element_attribute(nodes, id, "src"@) {
            Some(src) => Some((ResourceKind::Image, src)),
            None => None,
        }
    } else {
        None
    }
}

/// The diagnostic for a reference that does not resolve.
pub open spec fn invalid_reference_text(kind: ResourceKind, reference: Seq<char>) -> Seq<char> {
    "ignored "@ + resource_word(kind) + " with invalid URL: "@ + reference
}

/// The resources that the nodes `ids` ask for and that resolve against `base`,
/// in order.
pub open spec fn resource_list(nodes: Seq<NodeView>, ids: Seq<int>, base: Seq<char>) -> Seq<(ResourceKind, Seq<char>)>
    decreases ids.len(),
{
    if ids.len() == 0 {
        Seq::empty()
    } else {
        let head = match resource_reference(nodes, ids[0]) {
            Some((kind, reference)) => match spec_url_join(base, reference) {
                Ok(url) => seq![(kind, url)],
                Err(_) => Seq::empty(),
            },
            None => Seq::empty(),
        };
        head + resource_list(nodes, ids.drop_first(), base)
    }
}

/// The diagnostics for the references of the nodes `ids` that do not resolve
/// against `base`, in order.
pub open spec fn reference_diagnostics(nodes: Seq<NodeView>, ids: Seq<int>, base: Seq<char>) -> Seq<Seq<char>>
    decreases ids.len(),
{
    if ids.len() == 0 {
        Seq::empty()
    } else {
        let head = match resource_reference(nodes, ids[0]) {
            Some((kind, reference)) => match spec_url_join(base, reference) {
                Ok(_) => Seq::empty(),
                Err(_) => seq![invalid_reference_text(kind, reference)],
            },
            None => Seq::empty(),
        };
        head + reference_diagnostics(nodes, ids.drop_first(), base)
    }
}

/// The kind and URL of each resource, viewed.
pub open spec fn candidate_views(candidates: Seq<(ResourceKind, WebUrl)>) -> Seq<(ResourceKind, Seq<char>)> {
    candidates.map_values(|c: (ResourceKind, WebUrl)| (c.0, c.1@))
}

/// The texts of a list of strings.
pub open spec fn texts_of(strings: Seq<String>) -> Seq<Seq<char>> {
    strings.map_values(|s: String| s@)
}

fn invalid_reference(kind: ResourceKind, reference: &str) -> (r: String)
    ensures
        r@ == invalid_reference_text(kind, reference@),
{
    let mut text = String::from_str("ignored ");
    text.append(resource_name(kind));
    text.append(" with invalid URL: ");
    text.append(reference);
    text
}

/// The stylesheets and images that the document asks for, resolved against
/// `base`, in document order; a reference that does not resolve is reported
/// instead.
pub fn resource_urls(document: &Document, base: &WebUrl) -> (r: (Vec<(ResourceKind, WebUrl)>, Vec<String>))
    requires
        document.wf(),
    ensures
        candidate_views(r.0@) == resource_list(document@, subtree(document@, 0), base@),
        texts_of(r.1@) == reference_diagnostics(document@, subtree(document@, 0), base@),
{
    let ghost nodes = document@;
    let ghost all = subtree(nodes, 0);
    let mut walk = document.descendants(document.root());
    let mut found: Vec<(ResourceKind, WebUrl)> = Vec::new();
    let mut diagnostics: Vec<String> = Vec::new();
    loop
        invariant
            document.wf(),
            nodes == document@,
            all == subtree(nodes, 0),
            walk.wf(),
            walk.nodes() == nodes,
            resource_list(nodes, all, base@) == candidate_views(found@) + resource_list(
                nodes,
                walk.remaining(),
                base@,
            ),
            reference_diagnostics(nodes, all, base@) == texts_of(diagnostics@) + reference_diagnostics(
                nodes,
                walk.remaining(),
                base@,
            ),
        ensures
            candidate_views(found@) == resource_list(nodes, all, base@),
            texts_of(diagnostics@) == reference_diagnostics(nodes, all, base@),
        decreases walk.remaining().len(),
    {
        let ghost before = walk.remaining();
        let ghost old_found = found@;
        let ghost old_diagnostics = diagnostics@;
        match walk.next() {
            None => {
                proof {
                    assert(candidate_views(found@) + Seq::empty() =~= candidate_views(found@));
                    assert(texts_of(diagnostics@) + Seq::empty() =~= texts_of(diagnostics@));
                }
                break;
            },
            Some(node) => {
                let ghost id = before[0];
                let mut reference: Option<(ResourceKind, &str)> = None;
                match &node.kind {
                    NodeKind::Element(element) => {
                        let is_stylesheet = match element.attribute("rel") {
                            Some(rel) => contains_word(rel, "stylesheet"),
                            None => false,
                        };
                        if str_eq(element.name.as_str(), "link") && is_stylesheet {
                            match element.attribute("href") {
                                Some(href) => {
                                    reference = Some((ResourceKind::Stylesheet, href));
                                },
                                None => {},
                            }
                        } else if str_eq(element.name.as_str(), "img") {
                            match element.attribute("src") {
                                Some(src) => {
                                    reference = Some((ResourceKind::Image, src));
                                },
                                None => {},
                            }
                        }
                    },
                    _ => {},
                }
                proof {
                    assert(match reference {
                        Some((kind, text)) => resource_reference(nodes, id) == Some((kind, text@)),
                        None => resource_reference(nodes, id) is None,
                    });
                }
                match reference {
                    Some((kind, text)) => match base.join(text) {
                        Ok(url) => {
                            found.push((kind, url));
                            proof {
                                assert(candidate_views(found@) =~= candidate_views(old_found) + seq![
                                    (kind, url@),
                                ]);
                                assert(texts_of(diagnostics@) =~= texts_of(old_diagnostics) + Seq::empty());
                            }
                        },
                        Err(_) => {
                            diagnostics.push(invalid_reference(kind, text));
                            proof {
                                assert(texts_of(diagnostics@) =~= texts_of(old_diagnostics) + seq![
                                    invalid_reference_text(kind, text@),
                                ]);
                                assert(candidate_views(found@) =~= candidate_views(old_found) + Seq::empty());
                            }
                        },
                    },
                    None => {
                        proof {
                            assert(candidate_views(found@) =~= candidate_views(old_found) + Seq::empty());
                            assert(texts_of(diagnostics@) =~= texts_of(old_diagnostics) + Seq::empty());
                        }
                    },
                }
                proof {
                    assert(before.drop_first() == walk.remaining());
                }
            },
        }
    }
    (found, diagnostics)
}

/// How the broker decides whether a resource shares the document's origin.
#[derive(Clone, Copy, Debug, PartialEq, Eq, Structural)]
pub enum OriginRule {
    /// The same HTTP(S) scheme, host and port.
    Same,
    /// Another origin.
    Cross,
    /// A file next to a file document: it counts when it lies in the
    /// document's directory tree, which only the file system can tell.
    DirectoryScope,
}

/// The origin rule for `resource` under `document`: file documents may use
/// files within their directory tree, HTTP(S) documents resources of their
/// own origin, other documents nothing.
pub open spec fn origin_rule_spec(document: Seq<char>, resource: Seq<char>) -> OriginRule {
    let scheme = spec_url_scheme(document);
    if scheme == "file"@ {
        if spec_url_scheme(resource) == "file"@ {
            OriginRule::DirectoryScope
        } else {
            OriginRule::Cross
        }
    } else if (scheme == "http"@ || scheme == "https"@) && scheme == spec_url_scheme(resource)
        && spec_url_host(document) == spec_url_host(resource) && spec_url_port(document) == spec_url_port(
        resource,
    ) {
        OriginRule::Same
    } else {
        OriginRule::Cross
    }
}

/// The origin rule for `resource` under `document`.
pub fn origin_rule(document: &WebUrl, resource: &WebUrl) -> (r: OriginRule)
    ensures
        r == origin_rule_spec(document@, resource@),
{
    if str_eq(document.scheme(), "file") {
        if str_eq(resource.scheme(), "file") {
            OriginRule::DirectoryScope
        } else {
            OriginRule::Cross
        }
    } else if same_origin(document, resource) {
        OriginRule::Same
    } else {
        OriginRule::Cross
    }
}

/// The diagnostic for a resource of another origin.
pub open spec fn cross_origin_text(kind: ResourceKind, url: Seq<char>) -> Seq<char> {
    "ignored cross-origin "@ + resource_word(kind) + ": "@ + url
}

/// The diagnostic for a resource beyond the byte budget.
pub open spec fn over_budget_text(kind: ResourceKind, url: Seq<char>) -> Seq<char> {
    "ignored "@ + resource_word(kind) + " beyond broker resource budget: "@ + url
}

/// The diagnostic for a resource that redirected to another origin.
pub open spec fn redirected_text(kind: ResourceKind, url: Seq<char>) -> Seq<char> {
    "ignored "@ + resource_word(kind) + " redirected across origins: "@ + url
}

/// The diagnostic for a resource that failed to load.
pub open spec fn failed_load_text(kind: ResourceKind, url: Seq<char>, error: LoadError) -> Seq<char> {
    "could not load "@ + resource_word(kind) + " "@ + url + ": "@ + load_error_text(error)
}

fn sentence(first: &str, kind: ResourceKind, middle: &str, url: &WebUrl) -> (r: String)
    ensures
        r@ == first@ + resource_word(kind) + middle@ + url@,
{
    let mut text = String::from_str(first);
    text.append(resource_name(kind));
    text.append(middle);
    text.append(url.as_str());
    text
}

/// A resource as the broker keeps it: requested URL, final URL, kind and body.
pub open spec fn resource_view(resource: BrokeredResource) -> (Seq<char>, Seq<char>, ResourceKind, Seq<u8>) {
    (resource.requested_url@, resource.final_url@, resource.kind, resource.body@)
}

/// The broker's progress through a document's resources.
#[derive(Debug)]
pub struct ResourceBroker {
    document_url: WebUrl,
    candidates: Vec<(ResourceKind, WebUrl)>,
    position: usize,
    seen: Vec<(ResourceKind, String)>,
    resource_bytes: usize,
    resources: Vec<BrokeredResource>,
    diagnostics: Vec<String>,
}

impl ResourceBroker {
    /// The URL of the document whose resources are brokered.
    pub closed spec fn document(self) -> Seq<char> {
        self.document_url@
    }

    /// The resources that the document asks for, in order.
    pub closed spec fn candidates(self) -> Seq<(ResourceKind, Seq<char>)> {
        candidate_views(self.candidates@)
    }

    /// How many candidates have been considered.
    pub closed spec fn position(self) -> int {
        self.position as int
    }

    /// The kinds and URLs already considered.
    pub closed spec fn seen(self) -> Set<(ResourceKind, Seq<char>)> {
        Set::new(|key: (ResourceKind, Seq<char>)| exists|i: int| 0 <= i < self.seen@.len() && #[trigger] self.seen@[i].0
            == key.0 && self.seen@[i].1@ == key.1)
    }

    /// The bytes of the resources kept so far.
    pub closed spec fn bytes(self) -> int {
        self.resource_bytes as int
    }

    /// The resources kept so far.
    pub closed spec fn resources(self) -> Seq<(Seq<char>, Seq<char>, ResourceKind, Seq<u8>)> {
        self.resources@.map_values(|r: BrokeredResource| resource_view(r))
    }

    /// The diagnostics so far.
    pub closed spec fn diagnostics(self) -> Seq<Seq<char>> {
        texts_of(self.diagnostics@)
    }

    pub closed spec fn wf(self) -> bool {
        self.position <= self.candidates@.len()
    }

    /// Everything but the diagnostics is as in `other`.
    pub open spec fn same_progress(self, other: ResourceBroker) -> bool {
        &&& self.document() == other.document()
        &&& self.candidates() == other.candidates()
        &&& self.position() == other.position()
        &&& self.seen() == other.seen()
        &&& self.bytes() == other.bytes()
        &&& self.resources() == other.resources()
    }

    /// A broker for the document at `document_url` and the resources it asks
    /// for, starting from the diagnostics made while finding them.
    pub fn new(
        document_url: WebUrl,
        candidates: Vec<(ResourceKind, WebUrl)>,
        diagnostics: Vec<String>,
    ) -> (r: ResourceBroker)
        ensures
            r.wf(),
            r.document() == document_url@,
            r.candidates() == candidate_views(candidates@),
            r.position() == 0,
            r.seen() == Set::<(ResourceKind, Seq<char>)>::empty(),
            r.bytes() == 0,
            r.resources() == Seq::<(Seq<char>, Seq<char>, ResourceKind, Seq<u8>)>::empty(),
            r.diagnostics() == texts_of(diagnostics@),
    {
        let r = ResourceBroker {
            document_url,
            candidates,
            position: 0,
            seen: Vec::new(),
            resource_bytes: 0,
            resources: Vec::new(),
            diagnostics,
        };
        proof {
            assert(r.seen() =~= Set::<(ResourceKind, Seq<char>)>::empty());
            assert(r.resources() =~= Seq::<(Seq<char>, Seq<char>, ResourceKind, Seq<u8>)>::empty());
        }
        r
    }

    fn was_seen(&self, kind: ResourceKind, url: &WebUrl) -> (r: bool)
        ensures
            r == self.seen().contains((kind, url@)),
    {
        let mut i: usize = 0;
        while i < self.seen.len()
            invariant
                i <= self.seen@.len(),
                forall|j: int| 0 <= j < i ==> !(self.seen@[j].0 == kind && self.seen@[j].1@ == url@),
            decreases self.seen@.len() - i,
        {
            if self.seen[i].0 == kind && str_eq(self.seen[i].1.as_str(), url.as_str()) {
                proof {
                    assert(self.seen@[i as int].0 == (kind, url@).0 && self.seen@[i as int].1@ == (kind, url@).1);
                }
                return true;
            }
            i = i + 1;
        }
        false
    }

    /// The next resource to consider, each kind and URL once: resources
    /// already considered are passed over.
    pub fn next_candidate(&mut self) -> (r: Option<(ResourceKind, WebUrl)>)
        requires
            old(self).wf(),
        ensures
            final(self).wf(),
            final(self).document() == old(self).document(),
            final(self).candidates() == old(self).candidates(),
            final(self).bytes() == old(self).bytes(),
            final(self).resources() == old(self).resources(),
            final(self).diagnostics() == old(self).diagnostics(),
            old(self).position() <= final(self).position(),
            forall|j: int| old(self).position() <= j < final(self).position() - 1 ==> old(self).seen().contains(
                #[trigger] old(self).candidates()[j],
            ),
            r is None ==> final(self).position() == old(self).candidates().len() && final(self).seen() == old(
                self,
            ).seen() && (final(self).position() > old(self).position() ==> old(self).seen().contains(
                old(self).candidates()[final(self).position() - 1],
            )),
            r matches Some((kind, url)) ==> ({
                let p = final(self).position() - 1;
                &&& old(self).candidates()[p] == (kind, url@)
                &&& !old(self).seen().contains((kind, url@))
                &&& final(self).seen() == old(self).seen().insert((kind, url@))
            }),
    {
        let ghost start = self.position as int;
        while self.position < self.candidates.len()
            invariant
                self.wf(),
                self.document() == old(self).document(),
                self.candidates() == old(self).candidates(),
                self.seen() == old(self).seen(),
                self.bytes() == old(self).bytes(),
                self.resources() == old(self).resources(),
                self.diagnostics() == old(self).diagnostics(),
                start == old(self).position(),
                start <= self.position(),
                forall|j: int| start <= j < self.position() ==> old(self).seen().contains(
                    #[trigger] old(self).candidates()[j],
                ),
            decreases self.candidates@.len() - self.position,
        {
            let index = self.position;
            self.position = index + 1;
            let kind = self.candidates[index].0;
            proof {
                assert(self.candidates()[index as int] == (kind, self.candidates@[index as int].1@));
            }
            if !self.was_seen(kind, &self.candidates[index].1) {
                let url = self.candidates[index].1.duplicate();
                let ghost before = self.seen;
                self.seen.push((kind, url.to_string()));
                proof {
                    assert(self.seen() =~= old(self).seen().insert((kind, url@))) by {
                        assert forall|key: (ResourceKind, Seq<char>)| #[trigger] self.seen().contains(key) == old(
                            self,
                        ).seen().insert((kind, url@)).contains(key) by {
                            if old(self).seen().contains(key) {
                                let i = choose|i: int| 0 <= i < before@.len() && #[trigger] before@[i].0 == key.0
                                    && before@[i].1@ == key.1;
                                assert(self.seen@[i] == before@[i]);
                            }
                            if key == (kind, url@) {
                                assert(self.seen@[before@.len() as int].0 == key.0);
                            }
                            if self.seen().contains(key) {
                                let i = choose|i: int| 0 <= i < self.seen@.len() && #[trigger] self.seen@[i].0 == key.0
                                    && self.seen@[i].1@ == key.1;
                                if i < before@.len() {
                                    assert(before@[i] == self.seen@[i]);
                                }
                            }
                        }
                    }
                }
                return Some((kind, url));
            }
        }
        None
    }

    /// The byte limit for loading `url`: nothing for a resource of another
    /// origin or once the budget is spent, each reported; otherwise what is
    /// left of the budget, at most [`RESOURCE_BYTE_LIMIT`].
    pub fn grant(&mut self, kind: ResourceKind, url: &WebUrl, same_origin: bool) -> (r: Option<usize>)
        ensures
            final(self).same_progress(*old(self)),
            final(self).wf() == old(self).wf(),
            !same_origin ==> r is None && final(self).diagnostics() == old(self).diagnostics().push(
                cross_origin_text(kind, url@),
            ),
            same_origin && old(self).bytes() >= TOTAL_RESOURCE_BYTE_LIMIT ==> r is None
                && final(self).diagnostics() == old(self).diagnostics().push(over_budget_text(kind, url@)),
            same_origin && old(self).bytes() < TOTAL_RESOURCE_BYTE_LIMIT ==> final(self).diagnostics() == old(
                self,
            ).diagnostics() && r == Some(
                if TOTAL_RESOURCE_BYTE_LIMIT - old(self).bytes() < RESOURCE_BYTE_LIMIT {
                    (TOTAL_RESOURCE_BYTE_LIMIT - old(self).bytes()) as usize
                } else {
                    RESOURCE_BYTE_LIMIT
                },
            ),
            r matches Some(limit) ==> old(self).bytes() + limit <= TOTAL_RESOURCE_BYTE_LIMIT,
    {
        if !same_origin {
            self.diagnostics.push(sentence("ignored cross-origin ", kind, ": ", url));
            proof {
                assert(self.diagnostics() =~= old(self).diagnostics().push(cross_origin_text(kind, url@)));
            }
            return None;
        }
        if self.resource_bytes >= TOTAL_RESOURCE_BYTE_LIMIT {
            self.diagnostics.push(sentence("ignored ", kind, " beyond broker resource budget: ", url));
            proof {
                assert(self.diagnostics() =~= old(self).diagnostics().push(over_budget_text(kind, url@)));
            }
            return None;
        }
        let remaining = TOTAL_RESOURCE_BYTE_LIMIT - self.resource_bytes;
        if remaining < RESOURCE_BYTE_LIMIT {
            Some(remaining)
        } else {
            Some(RESOURCE_BYTE_LIMIT)
        }
    }

    /// Keeps what loading `requested` gave: a resource that redirected to
    /// another origin, or that failed, is reported; any other is kept and its
    /// bytes counted.
    pub fn accept(
        &mut self,
        kind: ResourceKind,
        requested: &WebUrl,
        outcome: Result<ResponseBytes, LoadError>,
        final_same_origin: bool,
        limit: usize,
    )
        ensures
            final(self).wf() == old(self).wf(),
            final(self).document() == old(self).document(),
            final(self).candidates() == old(self).candidates(),
            final(self).position() == old(self).position(),
            final(self).seen() == old(self).seen(),
            outcome matches Err(error) ==> final(self).bytes() == old(self).bytes() && final(self).resources()
                == old(self).resources() && final(self).diagnostics() == old(self).diagnostics().push(
                failed_load_text(kind, requested@, error),
            ),
            outcome matches Ok(response) ==> (!final_same_origin ==> final(self).bytes() == old(self).bytes()
                && final(self).resources() == old(self).resources() && final(self).diagnostics() == old(
                self,
            ).diagnostics().push(redirected_text(kind, requested@))),
            outcome matches Ok(response) ==> (final_same_origin ==> final(self).diagnostics() == old(
                self,
            ).diagnostics() && final(self).resources() == old(self).resources().push(
                (requested@, response.final_url@, kind, response.body@),
            ) && final(self).bytes() == if old(self).bytes() + response.body@.len() > usize::MAX {
                usize::MAX as int
            } else {
                old(self).bytes() + response.body@.len()
            }),
            outcome matches Ok(response) ==> (old(self).bytes() + limit <= TOTAL_RESOURCE_BYTE_LIMIT
                && response.body@.len() <= limit ==> final(self).bytes() <= TOTAL_RESOURCE_BYTE_LIMIT),
    {
        match outcome {
            Err(error) => {
                let mut text = sentence("could not load ", kind, " ", requested);
                text.append(": ");
                let detail = error.describe();
                text.append(detail.as_str());
                self.diagnostics.push(text);
                proof {
                    assert(self.diagnostics() =~= old(self).diagnostics().push(
                        failed_load_text(kind, requested@, error),
                    ));
                }
            },
            Ok(response) => {
                if !final_same_origin {
                    self.diagnostics.push(sentence("ignored ", kind, " redirected across origins: ", requested));
                    proof {
                        assert(self.diagnostics() =~= old(self).diagnostics().push(
                            redirected_text(kind, requested@),
                        ));
                    }
                } else {
                    let length = response.body.len();
                    self.resource_bytes = if self.resource_bytes > usize::MAX - length {
                        usize::MAX
                    } else {
                        self.resource_bytes + length
                    };
                    let resource = BrokeredResource {
                        requested_url: requested.to_string(),
                        final_url: response.final_url.to_string(),
                        kind,
                        body: ResourceBytes::new(response.body),
                    };
                    self.resources.push(resource);
                    proof {
                        assert(self.resources() =~= old(self).resources().push(
                            (requested@, response.final_url@, kind, response.body@),
                        ));
                    }
                }
            },
        }
    }

    /// The document for the renderer: the request's page, navigation and
    /// viewport, the final URL and text of the document, the kept resources and
    /// the diagnostics.
    pub fn finish(self, request: &BrokerRequest, html: String) -> (r: StaticDocument)
        ensures
            r.page_id.0@ == request.page_id.0@,
            r.navigation_id == request.navigation_id,
            r.url@ == self.document(),
            r.html@ == html@,
            r.viewport_width_px == request.viewport_width_px,
            r.resources@.map_values(|r: BrokeredResource| resource_view(r)) == self.resources(),
            texts_of(r.broker_diagnostics@) == self.diagnostics(),
    {
        StaticDocument {
            page_id: request.page_id.copy(),
            navigation_id: request.navigation_id,
            url: self.document_url.to_string(),
            html,
            viewport_width_px: request.viewport_width_px,
            resources: self.resources,
            broker_diagnostics: self.diagnostics,
        }
    }
}

/// The report of a frame body over the limit.
pub open spec fn frame_too_large_text(actual: nat, maximum: nat) -> Seq<char> {
    "protocol frame body is "@ + decimal(actual) + " bytes, exceeding the "@ + decimal(maximum) + "-byte limit"@
}

/// The encoded render request must fit in one protocol frame.
pub fn check_frame(body: &[u8]) -> (r: Result<(), BrokerError>)
    ensures
        body@.len() <= crate::protocol::MAX_FRAME_BODY_BYTES ==> r is Ok,
        body@.len() > crate::protocol::MAX_FRAME_BODY_BYTES ==> (r matches Err(BrokerError::Frame(message))
            && message@ == frame_too_large_text(body@.len(), crate::protocol::MAX_FRAME_BODY_BYTES as nat)),
{
    let limit = Codec::new(crate::protocol::MAX_FRAME_BODY_BYTES).effective_limit();
    if body.len() > limit {
        let mut text = String::from_str("protocol frame body is ");
        text.append(decimal_string(body.len()).as_str());
        text.append(" bytes, exceeding the ");
        text.append(decimal_string(limit).as_str());
        text.append("-byte limit");
        Err(BrokerError::Frame(text))
    } else {
        Ok(())
    }
}

/// The broker's origin rule agrees with the document's origin test: a
/// resource counts as the same origin exactly when the two share an origin and
/// the document is not a file; a file document's file resources fall to the
/// directory rule; every other resource is cross-origin.
pub proof fn law_origin_rule_follows_same_origin(document: Seq<char>, resource: Seq<char>)
    ensures
        origin_rule_spec(document, resource) == OriginRule::Same <==> (crate::page::same_origin_spec(document, resource)
            && spec_url_scheme(document) != "file"@),
        origin_rule_spec(document, resource) == OriginRule::DirectoryScope <==> (crate::page::same_origin_spec(
            document,
            resource,
        ) && spec_url_scheme(document) == "file"@),
        origin_rule_spec(document, resource) == OriginRule::Cross <==> !crate::page::same_origin_spec(document, resource),
{
}

} // verus!
