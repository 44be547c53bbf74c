//! Building the document tree from a parsed HTML tree, and reading the title.

use vstd::prelude::*;

use crate::dom::{
    attributes_view, can_append, appended, subtree, texts, Document, ElementData, KindView, NodeId,
    NodeKind, NodeView,
};
use crate::text::{str_eq, trim, trimmed};
use html5ever::tendril::TendrilSink;
use markup5ever_rcdom::Node as RcdomNode;

verus! {

#[verifier::external_type_specification]
#[verifier::external_body]
pub struct ExternalRcdomNode(RcdomNode);

/// A node of a parsed HTML tree: the document, an element (name, attributes,
/// children), a text run, or anything else (comments, doctypes).
pub enum RawNode {
    Document(Vec<RawNode>),
    Element(String, Vec<(String, String)>, Vec<RawNode>),
    Text(String),
    Other,
}

/// The nodes after copying `children` under `parent`, in order.
pub open spec fn copy_spec(nodes: Seq<NodeView>, parent: NodeId, children: Seq<RawNode>) -> Seq<
    NodeView,
>
    decreases children,
{
    if children.len() == 0 {
        nodes
    } else {
        copy_spec(step_spec(nodes, parent, children[0]), parent, children.drop_first())
    }
}

/// The nodes after copying one parsed node under `parent`: a document's children
/// go under `parent` itself, empty text and other nodes are skipped.
pub open spec fn step_spec(nodes: Seq<NodeView>, parent: NodeId, node: RawNode) -> Seq<NodeView>
    decreases node,
{
    match node {
        RawNode::Document(children) => copy_spec(nodes, parent, children@),
        RawNode::Text(text) => if text@.len() > 0 && can_append(nodes, parent) {
            appended(nodes, parent, KindView::Text(text@))
        } else {
            nodes
        },
        RawNode::Element(name, attributes, children) => if can_append(nodes, parent) {
            copy_spec(
                appended(
                    nodes,
                    parent,
                    KindView::Element { name: name@, attributes: attributes_view(attributes@) },
                ),
                NodeId(nodes.len() as u32),
                children@,
            )
        } else {
            nodes
        },
        RawNode::Other => nodes,
    }
}

/// The view of a document holding only its root.
pub open spec fn empty_document() -> Seq<NodeView> {
    seq![NodeView { id: NodeId(0), parent: None, children: Seq::empty(), kind: KindView::Document }]
}

proof fn lemma_copy_full(nodes: Seq<NodeView>, parent: NodeId, children: Seq<RawNode>)
    requires
        nodes.len() > u32::MAX,
    ensures
        copy_spec(nodes, parent, children) == nodes,
    decreases children,
{
    if children.len() > 0 {
        lemma_step_full(nodes, parent, children[0]);
        lemma_copy_full(nodes, parent, children.drop_first());
    }
}

proof fn lemma_step_full(nodes: Seq<NodeView>, parent: NodeId, node: RawNode)
    requires
        nodes.len() > u32::MAX,
    ensures
        step_spec(nodes, parent, node) == nodes,
    decreases node,
{
    match node {
        RawNode::Document(children) => {
            lemma_copy_full(nodes, parent, children@);
        },
        _ => {},
    }
}

proof fn lemma_copy_keeps_parent(nodes: Seq<NodeView>, parent: NodeId, children: Seq<RawNode>)
    requires
        parent.0 < nodes.len(),
    ensures
        copy_spec(nodes, parent, children).len() >= nodes.len(),
    decreases children,
{
    if children.len() > 0 {
        lemma_step_keeps_parent(nodes, parent, children[0]);
        lemma_copy_keeps_parent(step_spec(nodes, parent, children[0]), parent, children.drop_first());
    }
}

proof fn lemma_step_keeps_parent(nodes: Seq<NodeView>, parent: NodeId, node: RawNode)
    requires
        parent.0 < nodes.len(),
    ensures
        step_spec(nodes, parent, node).len() >= nodes.len(),
    decreases node,
{
    match node {
        RawNode::Document(children) => {
            lemma_copy_keeps_parent(nodes, parent, children@);
        },
        RawNode::Element(name, attributes, children) => {
            if can_append(nodes, parent) {
                let next = appended(
                    nodes,
                    parent,
                    KindView::Element { name: name@, attributes: attributes_view(attributes@) },
                );
                lemma_copy_keeps_parent(next, NodeId(nodes.len() as u32), children@);
            }
        },
        _ => {},
    }
}

fn clone_attributes(attributes: &Vec<(String, String)>) -> (r: Vec<(String, String)>)
    ensures
        attributes_view(r@) == attributes_view(attributes@),
{
    let mut out: Vec<(String, String)> = Vec::new();
    let mut i: usize = 0;
    while i < attributes.len()
        invariant
            i <= attributes.len(),
            out@.len() == i,
            attributes_view(out@) == attributes_view(attributes@.subrange(0, i as int)),
        decreases attributes.len() - i,
    {
        let ghost before = out@;
        let pair = (attributes[i].0.clone(), attributes[i].1.clone());
        out.push(pair);
        proof {
            let sub = attributes@.subrange(0, i + 1);
            assert(sub.subrange(0, i as int) =~= attributes@.subrange(0, i as int));
            assert forall|j: int| 0 <= j <= i implies #[trigger] attributes_view(out@)[j]
                == attributes_view(sub)[j] by {
                if j < i {
                    assert(out@[j] == before[j]);
                    assert(attributes_view(before)[j] == attributes_view(
                        attributes@.subrange(0, i as int),
                    )[j]);
                    assert(sub[j] == attributes@.subrange(0, i as int)[j]);
                }
            }
            assert(attributes_view(out@) =~= attributes_view(sub));
        }
        i = i + 1;
    }
    proof {
        assert(attributes@.subrange(0, attributes@.len() as int) =~= attributes@);
    }
    out
}

/// Copies the parsed `children` under `parent`, in order.
fn copy_children(children: &Vec<RawNode>, target: &mut Document, parent: NodeId)
    requires
        old(target).wf(),
        parent.0 < old(target)@.len(),
    ensures
        final(target).wf(),
        final(target)@ == copy_spec(old(target)@, parent, children@),
    decreases children@,
{
    let n = children.len();
    let mut i: usize = 0;
    proof {
        assert(children@.subrange(0, n as int) =~= children@);
    }
    while i < n
        invariant
            i <= n,
            n == children@.len(),
            target.wf(),
            parent.0 < target@.len(),
            copy_spec(old(target)@, parent, children@) == copy_spec(
                target@,
                parent,
                children@.subrange(i as int, n as int),
            ),
        decreases n - i,
    {
        let ghost rest = children@.subrange(i as int, n as int);
        let ghost before = target@;
        proof {
            assert(rest[0] == children@[i as int]);
            assert(rest.drop_first() =~= children@.subrange(i + 1, n as int));
            lemma_step_keeps_parent(before, parent, children@[i as int]);
        }
        match &children[i] {
            RawNode::Document(inner) => {
                copy_children(inner, target, parent);
            },
            RawNode::Text(text) => {
                if !text.as_str().is_empty() {
                    let _ = target.append(parent, NodeKind::Text(text.clone()));
                }
            },
            RawNode::Element(name, attributes, inner) => {
                let element = ElementData { name: name.clone(), attributes: clone_attributes(attributes) };
                match target.append(parent, NodeKind::Element(element)) {
                    Some(id) => {
                        copy_children(inner, target, id);
                    },
                    None => {
                        proof {
                            lemma_copy_full(before, parent, rest.drop_first());
                        }
                        return;
                    },
                }
            },
            RawNode::Other => {},
        }
        i = i + 1;
    }
}

/// A parsed HTML node as mathematical values.
pub enum RawNodeView {
    Document(Seq<RawNodeView>),
    Element(Seq<char>, Seq<(Seq<char>, Seq<char>)>, Seq<RawNodeView>),
    Text(Seq<char>),
    Other,
}

/// The view of a parsed node.
pub open spec fn raw_view(node: RawNode) -> RawNodeView
    decreases node,
{
    match node {
        RawNode::Document(children) => RawNodeView::Document(raw_views(children@)),
        RawNode::Element(name, attributes, children) => RawNodeView::Element(
            name@,
            attributes_view(attributes@),
            raw_views(children@),
        ),
        RawNode::Text(text) => RawNodeView::Text(text@),
        RawNode::Other => RawNodeView::Other,
    }
}

/// The views of parsed nodes, in order.
pub open spec fn raw_views(nodes: Seq<RawNode>) -> Seq<RawNodeView>
    decreases nodes,
{
    if nodes.len() == 0 {
        Seq::empty()
    } else {
        seq![raw_view(nodes[0])] + raw_views(nodes.drop_first())
    }
}

/// The nodes after copying the parsed `children` under `parent`, in order.
pub open spec fn copy_views(nodes: Seq<NodeView>, parent: NodeId, children: Seq<RawNodeView>) -> Seq<NodeView>
    decreases children,
{
    if children.len() == 0 {
        nodes
    } else {
        copy_views(step_view(nodes, parent, children[0]), parent, children.drop_first())
    }
}

/// The nodes after copying one parsed node under `parent`: a document's children
/// go under `parent` itself, empty text and other nodes are skipped.
pub open spec fn step_view(nodes: Seq<NodeView>, parent: NodeId, node: RawNodeView) -> Seq<NodeView>
    decreases node,
{
    match node {
        RawNodeView::Document(children) => copy_views(nodes, parent, children),
        RawNodeView::Text(text) => if text.len() > 0 && can_append(nodes, parent) {
            appended(nodes, parent, KindView::Text(text))
        } else {
            nodes
        },
        RawNodeView::Element(name, attributes, children) => if can_append(nodes, parent) {
            copy_views(
                appended(nodes, parent, KindView::Element { name, attributes }),
                NodeId(nodes.len() as u32),
                children,
            )
        } else {
            nodes
        },
        RawNodeView::Other => nodes,
    }
}

proof fn lemma_copy_views(nodes: Seq<NodeView>, parent: NodeId, children: Seq<RawNode>)
    ensures
        copy_spec(nodes, parent, children) == copy_views(nodes, parent, raw_views(children)),
    decreases children,
{
    if children.len() > 0 {
        let views = raw_views(children);
        assert(views[0] == raw_view(children[0]));
        assert(views.drop_first() =~= raw_views(children.drop_first()));
        lemma_step_view(nodes, parent, children[0]);
        lemma_copy_views(step_spec(nodes, parent, children[0]), parent, children.drop_first());
    }
}

proof fn lemma_step_view(nodes: Seq<NodeView>, parent: NodeId, node: RawNode)
    ensures
        step_spec(nodes, parent, node) == step_view(nodes, parent, raw_view(node)),
    decreases node,
{
    match node {
        RawNode::Document(children) => {
            lemma_copy_views(nodes, parent, children@);
        },
        RawNode::Element(name, attributes, children) => {
            if can_append(nodes, parent) {
                lemma_copy_views(
                    appended(nodes, parent, KindView::Element { name: name@, attributes: attributes_view(attributes@) }),
                    NodeId(nodes.len() as u32),
                    children@,
                );
            }
        },
        _ => {},
    }
}

/// What `html5ever::parse_document` builds from `source` into a
/// `markup5ever_rcdom::RcDom`: the children of its document node.
pub uninterp spec fn spec_html_tree(source: Seq<char>) -> Seq<RawNodeView>;

/// The children of an `RcDom` node as parsed nodes, element names and attribute
/// names by their local names; comments, doctypes and processing instructions
/// are `Other`. Used by [`html5ever_tree`] alone.
#[verifier::external_body]
fn rcdom_children(handle: &std::rc::Rc<RcdomNode>) -> Vec<RawNode> {
    handle.children.borrow().iter().map(|child| match &child.data {
        markup5ever_rcdom::NodeData::Document => RawNode::Document(rcdom_children(child)),
        markup5ever_rcdom::NodeData::Text { contents } => RawNode::Text(contents.borrow().to_string()),
        markup5ever_rcdom::NodeData::Element { name, attrs, .. } => RawNode::Element(
            name.local.to_string(),
            attrs.borrow().iter().map(|a| (a.name.local.to_string(), a.value.to_string())).collect(),
            rcdom_children(child),
        ),
        _ => RawNode::Other,
    }).collect()
}

/// Calls `html5ever::parse_document` with an `RcDom` sink and the default
/// options on `source`, and gives the children of the document node; the tree
/// is named by [`spec_html_tree`].
#[verifier::external_body]
fn html5ever_tree(source: &str) -> (r: Vec<RawNode>)
    ensures
        raw_views(r@) == spec_html_tree(source@),
{
    let dom = html5ever::parse_document(markup5ever_rcdom::RcDom::default(), Default::default()).one(source);
    rcdom_children(&dom.document)
}

/// Parses `source` as an HTML document, as html5ever builds it.
pub fn parse(source: &str) -> (r: Document)
    ensures
        r.wf(),
        r@ == copy_views(empty_document(), NodeId(0), spec_html_tree(source@)),
{
    let children = html5ever_tree(source);
    let document = document_from_tree(&children);
    proof {
        lemma_copy_views(empty_document(), NodeId(0), children@);
    }
    document
}

/// Builds a document from the children of a parsed document node.
pub fn document_from_tree(children: &Vec<RawNode>) -> (r: Document)
    ensures
        r.wf(),
        r@ == copy_spec(empty_document(), NodeId(0), children@),
{
    let mut document = Document::new();
    let root = document.root();
    proof {
        assert(document@ =~= empty_document());
    }
    copy_children(children, &mut document, root);
    document
}

/// Whether node `id` is a `title` element.
pub open spec fn is_title(nodes: Seq<NodeView>, id: int) -> bool {
    nodes[id].kind matches KindView::Element { name, .. } && name == "title"@
}

/// The first title element among `ids`.
pub open spec fn first_title(nodes: Seq<NodeView>, ids: Seq<int>) -> Option<int>
    decreases ids.len(),
{
    if ids.len() == 0 {
        None
    } else if is_title(nodes, ids[0]) {
        Some(ids[0])
    } else {
        first_title(nodes, ids.drop_first())
    }
}

/// The trimmed text of the document's first title element.
pub open spec fn title_spec(nodes: Seq<NodeView>) -> Option<Seq<char>> {
    match first_title(nodes, subtree(nodes, 0)) {
        Some(id) => Some(trim(texts(nodes, subtree(nodes, id)))),
        None => None,
    }
}

/// The trimmed text of the first `title` element, in document order.
pub fn title(document: &Document) -> (r: Option<String>)
    requires
        document.wf(),
    ensures
        match r {
            Some(text) => title_spec(document@) == Some(text@),
            None => title_spec(document@) is None,
        },
{
    let mut walk = document.descendants(document.root());
    let ghost all = subtree(document@, 0);
    loop
        invariant
            walk.wf(),
            walk.nodes() == document@,
            document.wf(),
            all == subtree(document@, 0),
            first_title(document@, all) == first_title(document@, walk.remaining()),
        decreases walk.remaining().len(),
    {
        let ghost before = walk.remaining();
        match walk.next() {
            None => {
                return None;
            },
            Some(node) => {
                let ghost id = before[0];
                match &node.kind {
                    NodeKind::Element(element) => {
                        if str_eq(element.name.as_str(), "title") {
                            let text = document.text_content(node.id);
                            proof {
                                document.lemma_nodes_well_formed();
                                assert(is_title(document@, id));
                                assert(node.id.0 == id);
                            }
                            return Some(trimmed(text.as_str()));
                        }
                    },
                    _ => {},
                }
                proof {
                    assert(!is_title(document@, id));
                }
            },
        }
    }
}

} // verus!
