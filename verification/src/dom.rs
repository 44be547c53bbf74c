//! The document tree: nodes stored by id, appended under existing parents,
//! and walked in document (pre-)order.

use vstd::prelude::*;

use crate::text::str_eq;

verus! {

#[derive(Clone, Copy, Debug, PartialEq, Eq, Hash, Structural)]
pub struct NodeId(pub u32);

#[derive(Clone, Debug)]
pub enum NodeKind {
    Document,
    Element(ElementData),
    Text(String),
}

#[derive(Clone, Debug)]
pub struct ElementData {
    pub name: String,
    pub attributes: Vec<(String, String)>,
}

#[derive(Clone, Debug)]
pub struct Node {
    pub id: NodeId,
    pub parent: Option<NodeId>,
    pub children: Vec<NodeId>,
    pub kind: NodeKind,
}

/// A node kind as mathematical values.
pub enum KindView {
    Document,
    Element { name: Seq<char>, attributes: Seq<(Seq<char>, Seq<char>)> },
    Text(Seq<char>),
}

/// A node as mathematical values.
pub struct NodeView {
    pub id: NodeId,
    pub parent: Option<NodeId>,
    pub children: Seq<NodeId>,
    pub kind: KindView,
}

pub open spec fn attributes_view(attributes: Seq<(String, String)>) -> Seq<(Seq<char>, Seq<char>)> {
    attributes.map_values(|a: (String, String)| (a.0@, a.1@))
}

pub open spec fn kind_view(kind: NodeKind) -> KindView {
    match kind {
        NodeKind::Document => KindView::Document,
        NodeKind::Element(element) => KindView::Element {
            name: element.name@,
            attributes: attributes_view(element.attributes@),
        },
        NodeKind::Text(text) => KindView::Text(text@),
    }
}

pub open spec fn node_view(node: Node) -> NodeView {
    NodeView {
        id: node.id,
        parent: node.parent,
        children: node.children@,
        kind: kind_view(node.kind),
    }
}

/// The value of the first attribute named `name`.
pub open spec fn first_attribute(attributes: Seq<(Seq<char>, Seq<char>)>, name: Seq<char>) -> Option<
    Seq<char>,
>
    decreases attributes.len(),
{
    if attributes.len() == 0 {
        None
    } else if attributes[0].0 == name {
        Some(attributes[0].1)
    } else {
        first_attribute(attributes.drop_first(), name)
    }
}

impl ElementData {
    pub open spec fn attribute_spec(&self, name: Seq<char>) -> Option<Seq<char>> {
        first_attribute(attributes_view(self.attributes@), name)
    }

    /// The value of the first attribute called `name`.
    pub fn attribute(&self, name: &str) -> (r: Option<&str>)
        ensures
            match r {
                Some(value) => self.attribute_spec(name@) == Some(value@),
                None => self.attribute_spec(name@) is None,
            },
    {
        let ghost all = attributes_view(self.attributes@);
        proof {
            assert(all.subrange(0, all.len() as int) =~= all);
        }
        let mut i: usize = 0;
        while i < self.attributes.len()
            invariant
                i <= self.attributes.len(),
                all == attributes_view(self.attributes@),
                first_attribute(all, name@) == first_attribute(
                    all.subrange(i as int, all.len() as int),
                    name@,
                ),
            decreases self.attributes.len() - i,
        {
            let ghost rest = all.subrange(i as int, all.len() as int);
            proof {
                assert(rest.drop_first() =~= all.subrange(i + 1, all.len() as int));
            }
            if str_eq(self.attributes[i].0.as_str(), name) {
                return Some(self.attributes[i].1.as_str());
            }
            i = i + 1;
        }
        None
    }
}

/// The ids, in document order, of the subtree rooted at `id`.
pub open spec fn subtree(nodes: Seq<NodeView>, id: int) -> Seq<int>
    decreases nodes.len() - id, 1int, 0int,
{
    if 0 <= id < nodes.len() {
        seq![id] + forest(nodes, nodes[id].children, id)
    } else {
        Seq::empty()
    }
}

/// The ids, in document order, of the subtrees rooted at `children` of node `above`.
pub open spec fn forest(nodes: Seq<NodeView>, children: Seq<NodeId>, above: int) -> Seq<int>
    decreases nodes.len() - above, 0int, children.len(),
{
    if children.len() == 0 || !(0 <= above < nodes.len()) {
        Seq::empty()
    } else {
        let first = children[0].0 as int;
        let head = if above < first < nodes.len() {
            subtree(nodes, first)
        } else {
            Seq::empty()
        };
        head + forest(nodes, children.drop_first(), above)
    }
}

/// The ids still to be visited from a traversal stack, whose top is its last entry.
pub open spec fn pending(nodes: Seq<NodeView>, stack: Seq<NodeId>) -> Seq<int>
    decreases stack.len(),
{
    if stack.len() == 0 {
        Seq::empty()
    } else {
        subtree(nodes, stack.last().0 as int) + pending(nodes, stack.drop_last())
    }
}

/// The text of the text nodes among `ids`, concatenated.
pub open spec fn texts(nodes: Seq<NodeView>, ids: Seq<int>) -> Seq<char>
    decreases ids.len(),
{
    if ids.len() == 0 {
        Seq::empty()
    } else {
        let here = match nodes[ids[0]].kind {
            KindView::Text(text) => text,
            _ => Seq::empty(),
        };
        here + texts(nodes, ids.drop_first())
    }
}

/// Every node's id is its index, node 0 is the root, and every parent has a
/// smaller id than its children.
pub open spec fn well_formed(nodes: Seq<NodeView>) -> bool {
    &&& 1 <= nodes.len() <= u32::MAX as nat + 1
    &&& nodes[0].parent is None
    &&& forall|i: int| 0 <= i < nodes.len() ==> (#[trigger] nodes[i]).id.0 == i
    &&& forall|i: int|
        0 < i < nodes.len() ==> ((#[trigger] nodes[i]).parent matches Some(p) && p.0 < i)
    &&& forall|i: int, k: int|
        0 <= i < nodes.len() && 0 <= k < nodes[i].children.len() ==> i < (
        #[trigger] nodes[i].children[k]).0 < nodes.len()
}

/// `nodes` after appending a node of kind `kind` under `parent`, when that succeeds.
pub open spec fn appended(nodes: Seq<NodeView>, parent: NodeId, kind: KindView) -> Seq<NodeView> {
    let id = NodeId(nodes.len() as u32);
    let p = parent.0 as int;
    nodes.update(p, NodeView { children: nodes[p].children.push(id), ..nodes[p] }).push(
        NodeView { id, parent: Some(parent), children: Seq::empty(), kind },
    )
}

/// An append succeeds when the new id fits and the parent exists.
pub open spec fn can_append(nodes: Seq<NodeView>, parent: NodeId) -> bool {
    nodes.len() <= u32::MAX && parent.0 < nodes.len()
}

/// Every child names its parent as its parent, and a node's children are listed
/// in increasing id order.
pub open spec fn tree_links(nodes: Seq<NodeView>) -> bool {
    &&& forall|i: int, k: int|
        0 <= i < nodes.len() && 0 <= k < nodes[i].children.len() ==> (#[trigger] nodes[i].children[k]).0
            < nodes.len() && nodes[nodes[i].children[k].0 as int].parent == Some(NodeId(i as u32))
    &&& forall|i: int, a: int, b: int|
        0 <= i < nodes.len() && 0 <= a < b < nodes[i].children.len() ==> (#[trigger] nodes[i].children[a]).0
            < (#[trigger] nodes[i].children[b]).0
}

/// Whether node `x` lies in the subtree of node `y`: it is `y`, or its parent does.
pub open spec fn descends(nodes: Seq<NodeView>, x: int, y: int) -> bool
    decreases x,
{
    if x < 0 || x >= nodes.len() {
        false
    } else if x == y {
        true
    } else {
        match nodes[x].parent {
            Some(p) => if 0 <= p.0 < x {
                descends(nodes, p.0 as int, y)
            } else {
                false
            },
            None => false,
        }
    }
}

/// The id of the parent of node `x`, or 0 for a node without one.
pub open spec fn parent_index(nodes: Seq<NodeView>, x: int) -> int {
    match nodes[x].parent {
        Some(p) => p.0 as int,
        None => 0,
    }
}

proof fn lemma_descends_above(nodes: Seq<NodeView>, x: int, y: int)
    requires
        descends(nodes, x, y),
    ensures
        y <= x,
    decreases x,
{
    if x != y {
        let p = parent_index(nodes, x);
        lemma_descends_above(nodes, p, y);
    }
}

proof fn lemma_descends_chain(nodes: Seq<NodeView>, x: int, a: int, b: int)
    requires
        descends(nodes, x, a),
        descends(nodes, x, b),
    ensures
        descends(nodes, a, b) || descends(nodes, b, a),
    decreases x,
{
    if x != a && x != b {
        let p = parent_index(nodes, x);
        lemma_descends_chain(nodes, p, a, b);
    }
}

proof fn lemma_descends_child(nodes: Seq<NodeView>, x: int, child: int, parent: int)
    requires
        well_formed(nodes),
        descends(nodes, x, child),
        0 <= parent < child < nodes.len(),
        nodes[child].parent == Some(NodeId(parent as u32)),
    ensures
        descends(nodes, x, parent),
    decreases x,
{
    if x != child {
        let p = parent_index(nodes, x);
        lemma_descends_child(nodes, p, child, parent);
    } else {
        assert((parent as u32) as int == parent);
        assert(descends(nodes, parent, parent));
    }
}

/// Each id of the subtree of `id` descends from it.
proof fn lemma_subtree_descends(nodes: Seq<NodeView>, id: int)
    requires
        well_formed(nodes),
        tree_links(nodes),
    ensures
        forall|j: int| 0 <= j < subtree(nodes, id).len() ==> descends(nodes, #[trigger] subtree(nodes, id)[j], id),
    decreases nodes.len() - id, 1int, 0int,
{
    if 0 <= id < nodes.len() {
        lemma_forest_descends(nodes, nodes[id].children, id);
        let f = forest(nodes, nodes[id].children, id);
        assert forall|j: int| 0 <= j < subtree(nodes, id).len() implies descends(nodes, #[trigger] subtree(nodes, id)[j], id) by {
            if j > 0 {
                assert(subtree(nodes, id)[j] == f[j - 1]);
            }
        }
    }
}

/// Each id of the forest below `above` descends from one of `children` that
/// lies above it, and so from `above`, and is larger than `above`.
proof fn lemma_forest_descends(nodes: Seq<NodeView>, children: Seq<NodeId>, above: int)
    requires
        well_formed(nodes),
        tree_links(nodes),
        0 <= above < nodes.len() ==> forall|k: int| 0 <= k < children.len() ==> (above < (#[trigger] children[k]).0
            < nodes.len() ==> nodes[children[k].0 as int].parent == Some(NodeId(above as u32))),
    ensures
        forall|j: int| 0 <= j < forest(nodes, children, above).len() ==> exists|k: int|
            0 <= k < children.len() && above < children[k].0 < nodes.len() && descends(
                nodes,
                #[trigger] forest(nodes, children, above)[j],
                children[k].0 as int,
            ),
        forall|j: int| 0 <= j < forest(nodes, children, above).len() ==> descends(
            nodes,
            #[trigger] forest(nodes, children, above)[j],
            above,
        ) && above < forest(nodes, children, above)[j],
    decreases nodes.len() - above, 0int, children.len(),
{
    if children.len() > 0 && 0 <= above < nodes.len() {
        let first = children[0].0 as int;
        let head = if above < first < nodes.len() {
            subtree(nodes, first)
        } else {
            Seq::empty()
        };
        let rest = children.drop_first();
        if above < first < nodes.len() {
            lemma_subtree_descends(nodes, first);
        }
        lemma_forest_descends(nodes, rest, above);
        let all = forest(nodes, children, above);
        assert(all == head + forest(nodes, rest, above));
        assert forall|j: int| 0 <= j < all.len() implies exists|k: int|
            0 <= k < children.len() && above < children[k].0 < nodes.len() && descends(nodes, #[trigger] all[j], children[k].0 as int) by {
            if j < head.len() {
                assert(descends(nodes, head[j], first));
            } else {
                let r = forest(nodes, rest, above);
                assert(all[j] == r[j - head.len()]);
                let k = choose|k: int| 0 <= k < rest.len() && above < rest[k].0 < nodes.len() && descends(nodes, r[j - head.len()], rest[k].0 as int);
                assert(rest[k] == children[k + 1]);
            }
        }
        assert forall|j: int| 0 <= j < all.len() implies descends(nodes, #[trigger] all[j], above) && above < all[j] by {
            let k = choose|k: int| 0 <= k < children.len() && above < children[k].0 < nodes.len() && descends(nodes, all[j], children[k].0 as int);
            lemma_descends_child(nodes, all[j], children[k].0 as int, above);
            lemma_descends_above(nodes, all[j], children[k].0 as int);
        }
    }
}

proof fn lemma_concat_no_duplicates(a: Seq<int>, b: Seq<int>)
    requires
        a.no_duplicates(),
        b.no_duplicates(),
        forall|i: int, j: int| 0 <= i < a.len() && 0 <= j < b.len() ==> a[i] != b[j],
    ensures
        (a + b).no_duplicates(),
{
    let c = a + b;
    assert forall|i: int, j: int| 0 <= i < c.len() && 0 <= j < c.len() && i != j implies c[i] != c[j] by {
        if i < a.len() && j >= a.len() {
            assert(c[j] == b[j - a.len()]);
        } else if i >= a.len() && j < a.len() {
            assert(c[i] == b[i - a.len()]);
        } else if i >= a.len() && j >= a.len() {
            assert(c[i] == b[i - a.len()] && c[j] == b[j - a.len()]);
        }
    }
}

/// The subtree of a node lists each of its ids once.
proof fn lemma_subtree_no_duplicates(nodes: Seq<NodeView>, id: int)
    requires
        well_formed(nodes),
        tree_links(nodes),
    ensures
        subtree(nodes, id).no_duplicates(),
    decreases nodes.len() - id, 1int, 0int,
{
    if 0 <= id < nodes.len() {
        let f = forest(nodes, nodes[id].children, id);
        lemma_forest_no_duplicates(nodes, nodes[id].children, id);
        lemma_forest_descends(nodes, nodes[id].children, id);
        lemma_concat_no_duplicates(seq![id], f);
    }
}

proof fn lemma_forest_no_duplicates(nodes: Seq<NodeView>, children: Seq<NodeId>, above: int)
    requires
        well_formed(nodes),
        tree_links(nodes),
        0 <= above < nodes.len() ==> forall|k: int| 0 <= k < children.len() ==> (above < (#[trigger] children[k]).0
            < nodes.len() ==> nodes[children[k].0 as int].parent == Some(NodeId(above as u32))),
        forall|a: int, b: int| 0 <= a < b < children.len() ==> (#[trigger] children[a]).0 < (#[trigger] children[b]).0,
    ensures
        forest(nodes, children, above).no_duplicates(),
    decreases nodes.len() - above, 0int, children.len(),
{
    if children.len() > 0 && 0 <= above < nodes.len() {
        let first = children[0].0 as int;
        let head = if above < first < nodes.len() {
            subtree(nodes, first)
        } else {
            Seq::empty()
        };
        let rest = children.drop_first();
        assert forall|a: int, b: int| 0 <= a < b < rest.len() implies (#[trigger] rest[a]).0 < (#[trigger] rest[b]).0 by {
            assert(rest[a] == children[a + 1] && rest[b] == children[b + 1]);
        }
        lemma_forest_no_duplicates(nodes, rest, above);
        lemma_forest_descends(nodes, rest, above);
        let tail = forest(nodes, rest, above);
        if above < first < nodes.len() {
            lemma_subtree_no_duplicates(nodes, first);
            lemma_subtree_descends(nodes, first);
            assert forall|i: int, j: int| 0 <= i < head.len() && 0 <= j < tail.len() implies head[i] != tail[j] by {
                let k = choose|k: int| 0 <= k < rest.len() && above < rest[k].0 < nodes.len() && descends(nodes, tail[j], rest[k].0 as int);
                let other = rest[k].0 as int;
                assert(rest[k] == children[k + 1]);
                assert(first < other);
                if head[i] == tail[j] {
                    lemma_descends_chain(nodes, head[i], first, other);
                    if descends(nodes, first, other) {
                        lemma_descends_above(nodes, first, other);
                    } else {
                        assert(nodes[other].parent == Some(NodeId(above as u32)));
                        assert(descends(nodes, above, first));
                        lemma_descends_above(nodes, above, first);
                    }
                }
            }
        } else {
            assert(head =~= Seq::<int>::empty());
        }
        lemma_concat_no_duplicates(head, tail);
        assert(forest(nodes, children, above) == head + tail);
    }
}

pub struct Document {
    nodes: Vec<Node>,
    root: NodeId,
}

impl View for Document {
    type V = Seq<NodeView>;

    closed spec fn view(&self) -> Seq<NodeView> {
        self.nodes@.map_values(|n: Node| node_view(n))
    }
}

proof fn lemma_subtree_forest_step(nodes: Seq<NodeView>, children: Seq<NodeId>, j: int, above: int)
    requires
        well_formed(nodes),
        0 <= above < nodes.len(),
        children == nodes[above].children,
        0 <= j < children.len(),
    ensures
        forest(nodes, children.subrange(j, children.len() as int), above) == subtree(
            nodes,
            children[j].0 as int,
        ) + forest(nodes, children.subrange(j + 1, children.len() as int), above),
{
    let rest = children.subrange(j, children.len() as int);
    assert(rest.drop_first() =~= children.subrange(j + 1, children.len() as int));
    assert(rest[0] == children[j]);
    assert(above < children[j].0 < nodes.len());
}

/// Walks a subtree in document order.
pub struct Descendants<'a> {
    document: &'a Document,
    stack: Vec<NodeId>,
}

impl<'a> Descendants<'a> {
    /// The walked document is well formed and the stack holds only its ids.
    pub closed spec fn wf(&self) -> bool {
        &&& self.document.wf()
        &&& forall|k: int|
            0 <= k < self.stack@.len() ==> (#[trigger] self.stack@[k]).0 < self.document@.len()
    }

    /// The document being walked.
    pub closed spec fn nodes(&self) -> Seq<NodeView> {
        self.document@
    }

    /// The ids that the walk has still to yield, in order.
    pub closed spec fn remaining(&self) -> Seq<int> {
        pending(self.document@, self.stack@)
    }

    /// Yields the next node of the walk.
    pub fn next(&mut self) -> (r: Option<&'a Node>)
        requires
            old(self).wf(),
        ensures
            final(self).wf(),
            final(self).nodes() == old(self).nodes(),
            old(self).remaining().len() == 0 ==> r is None && final(self).remaining() == old(
                self,
            ).remaining(),
            old(self).remaining().len() > 0 ==> (r matches Some(node) && {
                let id = old(self).remaining()[0];
                &&& 0 <= id < old(self).nodes().len()
                &&& node_view(*node) == old(self).nodes()[id]
                &&& final(self).remaining() == old(self).remaining().drop_first()
            }),
    {
        let ghost nodes = self.document@;
        let ghost before = self.stack@;
        let id = match self.stack.pop() {
            Some(id) => id,
            None => return None,
        };
        let ghost rest = self.stack@;
        proof {
            assert(before.drop_last() =~= rest);
            assert(before.last() == id);
            assert(nodes[id.0 as int] == node_view(self.document.nodes@[id.0 as int]));
        }
        let document: &'a Document = self.document;
        let node: &'a Node = &document.nodes[id.0 as usize];
        let count = node.children.len();
        let mut j: usize = count;
        while j > 0
            invariant
                j <= count,
                count == node.children@.len(),
                nodes == self.document@,
                self.document == document,
                well_formed(nodes),
                0 <= id.0 < nodes.len(),
                nodes[id.0 as int] == node_view(*node),
                pending(nodes, self.stack@) == forest(
                    nodes,
                    node.children@.subrange(j as int, count as int),
                    id.0 as int,
                ) + pending(nodes, rest),
                forall|k: int|
                    0 <= k < self.stack@.len() ==> (#[trigger] self.stack@[k]).0 < nodes.len(),
            decreases j,
        {
            j = j - 1;
            let child = node.children[j];
            proof {
                assert(nodes[id.0 as int].children[j as int] == child);
                lemma_subtree_forest_step(nodes, node.children@, j as int, id.0 as int);
            }
            let ghost old_stack = self.stack@;
            self.stack.push(child);
            proof {
                assert(self.stack@.drop_last() =~= old_stack);
            }
        }
        proof {
            assert(node.children@.subrange(0, count as int) =~= node.children@);
            assert(subtree(nodes, id.0 as int) == seq![id.0 as int] + forest(
                nodes,
                node.children@,
                id.0 as int,
            ));
            assert(pending(nodes, before) == subtree(nodes, id.0 as int) + pending(nodes, rest));
            assert(pending(nodes, self.stack@) =~= pending(nodes, before).drop_first());
        }
        Some(node)
    }
}

impl Document {
    /// The nodes are well formed and the root is node 0.
    pub closed spec fn wf(&self) -> bool {
        &&& well_formed(self@)
        &&& tree_links(self@)
        &&& self.root.0 == 0
    }

    /// In a well-formed document a walk from any node meets each node of its
    /// subtree exactly once.
    pub proof fn lemma_subtree_once(&self, root: NodeId)
        requires
            self.wf(),
        ensures
            subtree(self@, root.0 as int).no_duplicates(),
    {
        lemma_subtree_no_duplicates(self@, root.0 as int);
    }

    /// A well-formed document's nodes are well formed.
    pub proof fn lemma_nodes_well_formed(&self)
        requires
            self.wf(),
        ensures
            well_formed(self@),
    {
    }

    /// A document holding only its root node.
    pub fn new() -> (r: Document)
        ensures
            r.wf(),
            r@.len() == 1,
            r@[0] == (NodeView {
                id: NodeId(0),
                parent: None,
                children: Seq::empty(),
                kind: KindView::Document,
            }),
    {
        let root = Node { id: NodeId(0), parent: None, children: Vec::new(), kind: NodeKind::Document };
        let mut nodes: Vec<Node> = Vec::new();
        nodes.push(root);
        let r = Document { nodes, root: NodeId(0) };
        proof {
            assert(r@[0] == node_view(root));
        }
        r
    }

    pub fn root(&self) -> (r: NodeId)
        requires
            self.wf(),
        ensures
            r == NodeId(0),
    {
        self.root
    }

    /// The node with id `id`, if there is one.
    pub fn node(&self, id: NodeId) -> (r: Option<&Node>)
        ensures
            id.0 < self@.len() ==> (r matches Some(node) && node_view(*node) == self@[id.0 as int]),
            id.0 >= self@.len() ==> r is None,
    {
        let index = id.0 as usize;
        if index < self.nodes.len() {
            Some(&self.nodes[index])
        } else {
            None
        }
    }

    /// Appends a node of kind `kind` as the last child of `parent`; `None` when
    /// `parent` does not exist or the document already holds the largest number of ids.
    pub fn append(&mut self, parent: NodeId, kind: NodeKind) -> (r: Option<NodeId>)
        requires
            old(self).wf(),
        ensures
            final(self).wf(),
            can_append(old(self)@, parent) ==> r == Some(NodeId(old(self)@.len() as u32))
                && final(self)@ == appended(old(self)@, parent, kind_view(kind)),
            !can_append(old(self)@, parent) ==> r is None && final(self)@ == old(self)@,
    {
        let len = self.nodes.len();
        if len > 4294967295 {
            return None;
        }
        let id = NodeId(len as u32);
        let index = parent.0 as usize;
        if index >= len {
            return None;
        }
        let ghost before = self@;
        let mut nodes: Vec<Node> = Vec::new();
        std::mem::swap(&mut nodes, &mut self.nodes);
        let mut parent_node = nodes.remove(index);
        parent_node.children.push(id);
        nodes.insert(index, parent_node);
        let node = Node { id, parent: Some(parent), children: Vec::new(), kind };
        nodes.push(node);
        let ghost after = nodes@.map_values(|n: Node| node_view(n));
        proof {
            assert(after =~= appended(before, parent, kind_view(kind)));
            assert(tree_links(after)) by {
                assert forall|i: int, k: int| 0 <= i < after.len() && 0 <= k < after[i].children.len() implies (
                #[trigger] after[i].children[k]).0 < after.len() && after[after[i].children[k].0 as int].parent == Some(
                    NodeId(i as u32),
                ) by {
                    if i < before.len() && i != index as int {
                        assert(after[i] == before[i]);
                        assert(after[before[i].children[k].0 as int].parent == before[before[i].children[k].0 as int].parent);
                    } else if i == index as int && k < before[i].children.len() {
                        assert(after[i].children[k] == before[i].children[k]);
                        assert(after[before[i].children[k].0 as int].parent == before[before[i].children[k].0 as int].parent);
                    }
                }
                assert forall|i: int, a: int, b: int| 0 <= i < after.len() && 0 <= a < b < after[i].children.len() implies (
                #[trigger] after[i].children[a]).0 < (#[trigger] after[i].children[b]).0 by {
                    if i < before.len() && i != index as int {
                        assert(after[i] == before[i]);
                    } else if i == index as int && b == before[i].children.len() {
                        assert(after[i].children[a] == before[i].children[a]);
                    }
                }
            }
            assert(well_formed(after)) by {
                assert forall|i: int, k: int|
                    0 <= i < after.len() && 0 <= k < after[i].children.len() implies i < (
                    #[trigger] after[i].children[k]).0 < after.len() by {
                    if i < before.len() && i != index as int {
                        assert(after[i] == before[i]);
                    }
                }
                assert forall|i: int| 0 <= i < after.len() implies (#[trigger] after[i]).id.0
                    == i by {
                    if i < before.len() && i != index as int {
                        assert(after[i] == before[i]);
                    }
                }
                assert forall|i: int| 0 < i < after.len() implies ((#[trigger] after[i]).parent matches Some(
                    p,
                ) && p.0 < i) by {
                    if i < before.len() && i != index as int {
                        assert(after[i] == before[i]);
                    }
                }
            }
        }
        self.nodes = nodes;
        Some(id)
    }

    /// A walk, in document order, of the subtree rooted at `root`.
    pub fn descendants(&self, root: NodeId) -> (r: Descendants<'_>)
        requires
            self.wf(),
        ensures
            r.wf(),
            r.nodes() == self@,
            r.remaining() == subtree(self@, root.0 as int),
    {
        let mut stack: Vec<NodeId> = Vec::new();
        if (root.0 as usize) < self.nodes.len() {
            stack.push(root);
        }
        let r = Descendants { document: self, stack };
        proof {
            if root.0 < self@.len() {
                assert(r.stack@.drop_last() =~= Seq::<NodeId>::empty());
                assert(r.stack@.last() == root);
                assert(pending(self@, Seq::<NodeId>::empty()) == Seq::<int>::empty());
                assert(pending(self@, r.stack@) =~= subtree(self@, root.0 as int));
            }
        }
        r
    }

    /// The text of the text nodes of the subtree rooted at `root`, in document order.
    pub fn text_content(&self, root: NodeId) -> (r: String)
        requires
            self.wf(),
        ensures
            r@ == texts(self@, subtree(self@, root.0 as int)),
    {
        let mut walk = self.descendants(root);
        let mut out = String::new();
        let ghost all = subtree(self@, root.0 as int);
        loop
            invariant
                walk.wf(),
                walk.nodes() == self@,
                texts(self@, all) == out@ + texts(self@, walk.remaining()),
            ensures
                out@ == texts(self@, all),
            decreases walk.remaining().len(),
        {
            let ghost before = walk.remaining();
            match walk.next() {
                None => {
                    proof {
                        assert(texts(self@, walk.remaining()) == Seq::<char>::empty());
                        assert(out@ + Seq::<char>::empty() =~= out@);
                    }
                    break;
                },
                Some(node) => {
                    proof {
                        assert(texts(self@, before) == match self@[before[0]].kind {
                            KindView::Text(text) => text,
                            _ => Seq::empty(),
                        } + texts(self@, before.drop_first()));
                    }
                    match &node.kind {
                        NodeKind::Text(text) => {
                            let ghost prefix = out@;
                            out.append(text.as_str());
                            proof {
                                assert(out@ + texts(self@, walk.remaining()) =~= prefix + (text@
                                    + texts(self@, walk.remaining())));
                            }
                        },
                        _ => {},
                    }
                },
            }
        }
        out
    }
}

impl Default for Document {
    fn default() -> (r: Document)
        ensures
            r.wf(),
            r@.len() == 1,
            r@[0].kind == KindView::Document,
    {
        Document::new()
    }
}

} // verus!
