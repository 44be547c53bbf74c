//! Computed-style keywords, selector matching against the document tree, and
//! the ranks that decide which declaration of a property wins the cascade.

use vstd::prelude::*;

use crate::dom::{first_attribute, Document, KindView, NodeId, NodeKind, NodeView};
use crate::text::{i32_text, parse_i32, chars_of, contains_word, has_word, is_white_space, is_white_space_char, push_char, starts_with, str_eq, str_starts_with, string_of};

verus! {

#[derive(Clone, Copy, Debug, Default, PartialEq, Eq, Structural)]
pub enum Display {
    #[default]
    Inline,
    Block,
    Flex,
    /// `display: none`: the element and its subtree make no boxes.
    Hidden,
}

#[derive(Clone, Copy, Debug, Default, PartialEq, Eq, Structural)]
pub enum FlexDirection {
    #[default]
    Row,
    RowReverse,
    Column,
    ColumnReverse,
}

#[derive(Clone, Copy, Debug, Default, PartialEq, Eq, Structural)]
pub enum FlexWrap {
    #[default]
    NoWrap,
    Wrap,
}

#[derive(Clone, Copy, Debug, Default, PartialEq, Eq, Structural)]
pub enum FlexJustify {
    #[default]
    Start,
    Center,
    End,
    SpaceBetween,
    SpaceAround,
    SpaceEvenly,
}

#[derive(Clone, Copy, Debug, Default, PartialEq, Eq, Structural)]
pub enum FlexAlign {
    Start,
    Center,
    End,
    #[default]
    Stretch,
}

#[derive(Clone, Copy, Debug, Default, PartialEq, Eq, Structural)]
pub enum BoxSizing {
    #[default]
    ContentBox,
    BorderBox,
}

#[derive(Clone, Copy, Debug, Default, PartialEq, Eq, Structural)]
pub enum WhiteSpace {
    #[default]
    Normal,
    Pre,
    PreWrap,
    NoWrap,
}

#[derive(Clone, Copy, Debug, Default, PartialEq, Eq, Structural)]
pub enum FontWeight {
    #[default]
    Normal,
    Bold,
}

#[derive(Clone, Copy, Debug, Default, PartialEq, Eq, Structural)]
pub enum FontStyle {
    #[default]
    Normal,
    Italic,
}

#[derive(Clone, Copy, Debug, Default, PartialEq, Eq, Structural)]
pub enum TextAlign {
    #[default]
    Start,
    Center,
    End,
}

#[derive(Clone, Copy, Debug, Default, PartialEq, Eq, Structural)]
pub enum Overflow {
    #[default]
    Visible,
    Hidden,
}

#[derive(Clone, Copy, Debug, Default, PartialEq, Eq, Structural)]
pub enum Position {
    #[default]
    Static,
    Relative,
    Absolute,
}

/// `current`, as a finished token, appended to `tokens` unless it is empty.
pub open spec fn flush(tokens: Seq<Seq<char>>, current: Seq<char>) -> Seq<Seq<char>> {
    if current.len() > 0 {
        tokens.push(current)
    } else {
        tokens
    }
}

/// The tokens of `s` from position `i` on, after the finished `tokens` and the
/// unfinished `current`: white space separates tokens and `>` is a token of its own.
pub open spec fn tokens_from(s: Seq<char>, i: int, current: Seq<char>, tokens: Seq<Seq<char>>) -> Seq<
    Seq<char>,
>
    decreases s.len() - i,
{
    if i < 0 || i >= s.len() {
        flush(tokens, current)
    } else if is_white_space(s[i]) {
        tokens_from(s, i + 1, Seq::empty(), flush(tokens, current))
    } else if s[i] == '>' {
        tokens_from(s, i + 1, Seq::empty(), flush(tokens, current).push(seq!['>']))
    } else {
        tokens_from(s, i + 1, current.push(s[i]), tokens)
    }
}

/// The tokens of a selector: what `selector.replace('>', " > ").split_whitespace()` gives.
pub open spec fn selector_tokens(s: Seq<char>) -> Seq<Seq<char>> {
    tokens_from(s, 0, Seq::empty(), Seq::empty())
}

/// The tokens of `selector`.
pub fn split_selector(selector: &str) -> (r: Vec<String>)
    ensures
        r@.map_values(|t: String| t@) == selector_tokens(selector@),
{
    let chars = chars_of(selector);
    let mut tokens: Vec<String> = Vec::new();
    let mut current: Vec<char> = Vec::new();
    let mut i: usize = 0;
    proof {
        assert(tokens@.map_values(|t: String| t@) =~= Seq::<Seq<char>>::empty());
        assert(current@ =~= Seq::<char>::empty());
    }
    while i < chars.len()
        invariant
            i <= chars.len(),
            chars@ == selector@,
            selector_tokens(selector@) == tokens_from(
                selector@,
                i as int,
                current@,
                tokens@.map_values(|t: String| t@),
            ),
        decreases chars.len() - i,
    {
        let c = chars[i];
        let ghost before = tokens@.map_values(|t: String| t@);
        if is_white_space_char(c) || c == '>' {
            if current.len() > 0 {
                tokens.push(string_of(current.as_slice()));
                proof {
                    assert(tokens@.map_values(|t: String| t@) =~= before.push(current@));
                }
            }
            current = Vec::new();
            if c == '>' {
                let ghost flushed = tokens@.map_values(|t: String| t@);
                let mut arrow = String::new();
                push_char(&mut arrow, '>');
                tokens.push(arrow);
                proof {
                    assert(tokens@.map_values(|t: String| t@) =~= flushed.push(seq!['>']));
                }
            }
        } else {
            current.push(c);
        }
        i = i + 1;
    }
    if current.len() > 0 {
        let ghost before = tokens@.map_values(|t: String| t@);
        tokens.push(string_of(current.as_slice()));
        proof {
            assert(tokens@.map_values(|t: String| t@) =~= before.push(current@));
        }
    }
    tokens
}

/// The first position from `i` on that holds `.` or `#`, else the length.
pub open spec fn marker_from(s: Seq<char>, i: int) -> int
    decreases s.len() - i,
{
    if i < 0 || i >= s.len() {
        s.len() as int
    } else if s[i] == '.' || s[i] == '#' {
        i
    } else {
        marker_from(s, i + 1)
    }
}

/// A marker search from `i` stops within the sequence, at or after `i`.
pub proof fn lemma_marker_bounds(s: Seq<char>, i: int)
    requires
        0 <= i <= s.len(),
    ensures
        i <= marker_from(s, i) <= s.len(),
    decreases s.len() - i,
{
    if i < s.len() {
        lemma_marker_bounds(s, i + 1);
    }
}

/// Whether an element with attributes `attributes` has every `#id` and `.class`
/// of `rest`, a run of markers each followed by its value.
pub open spec fn qualifiers_match(attributes: Seq<(Seq<char>, Seq<char>)>, rest: Seq<char>) -> bool
    decreases rest.len(),
{
    if rest.len() == 0 {
        true
    } else {
        let after = rest.drop_first();
        let end = marker_from(after, 0);
        proof {
            lemma_marker_bounds(after, 0);
        }
        let value = after.subrange(0, end);
        let matched = if rest[0] == '#' {
            first_attribute(attributes, "id"@) == Some(value)
        } else if rest[0] == '.' {
            match first_attribute(attributes, "class"@) {
                Some(classes) => value.len() > 0 && has_word(classes, value),
                None => false,
            }
        } else {
            false
        };
        matched && qualifiers_match(attributes, after.subrange(end, after.len() as int))
    }
}

/// Whether node `id` is an element matching the compound selector `selector`:
/// an optional type (or `*`) followed by `#id` and `.class` qualifiers.
pub open spec fn simple_matches(nodes: Seq<NodeView>, id: int, selector: Seq<char>) -> bool {
    0 <= id < nodes.len() && match nodes[id].kind {
        KindView::Element { name, attributes } => {
            let type_end = marker_from(selector, 0);
            let element_type = selector.subrange(0, type_end);
            (element_type.len() == 0 || element_type == "*"@ || element_type == name)
                && qualifiers_match(attributes, selector.subrange(type_end, selector.len() as int))
        },
        _ => false,
    }
}

pub open spec fn parent_of(nodes: Seq<NodeView>, id: int) -> Option<NodeId> {
    if 0 <= id < nodes.len() {
        nodes[id].parent
    } else {
        None
    }
}

/// Whether node `id` matches the complex selector made of `tokens`: compound
/// selectors joined by descendant (white space) or child (`>`) combinators.
pub open spec fn tokens_match(nodes: Seq<NodeView>, id: int, tokens: Seq<Seq<char>>) -> bool
    decreases tokens.len(), 0int, 0int,
{
    if tokens.len() == 0 {
        false
    } else {
        let last = tokens.last();
        let preceding = tokens.drop_last();
        if last == ">"@ || !simple_matches(nodes, id, last) {
            false
        } else if preceding.len() == 0 {
            true
        } else {
            let direct = preceding.last() == ">"@;
            let remaining = if direct {
                preceding.drop_last()
            } else {
                preceding
            };
            match parent_of(nodes, id) {
                None => false,
                Some(parent) => if direct {
                    tokens_match(nodes, parent.0 as int, remaining)
                } else {
                    ancestor_matches(nodes, parent.0 as int, remaining)
                },
            }
        }
    }
}

/// Whether node `a` or one of its ancestors matches `tokens`.
pub open spec fn ancestor_matches(nodes: Seq<NodeView>, a: int, tokens: Seq<Seq<char>>) -> bool
    decreases tokens.len(), 1int, a,
{
    if 0 <= a < nodes.len() {
        tokens_match(nodes, a, tokens) || match nodes[a].parent {
            Some(parent) => if parent.0 < a {
                ancestor_matches(nodes, parent.0 as int, tokens)
            } else {
                false
            },
            None => false,
        }
    } else {
        false
    }
}

pub open spec fn has_char(s: Seq<char>, c: char) -> bool {
    exists|i: int| 0 <= i < s.len() && s[i] == c
}

/// Whether node `id` matches `selector`: `:root` matches the document's top
/// element; selector lists, pseudo-classes and attribute selectors never match.
pub open spec fn selector_matches_spec(nodes: Seq<NodeView>, id: int, selector: Seq<char>) -> bool {
    if selector == ":root"@ {
        match parent_of(nodes, id) {
            Some(parent) => parent.0 < nodes.len() && nodes[parent.0 as int].kind is Document,
            None => false,
        }
    } else if has_char(selector, ',') || has_char(selector, ':') || has_char(selector, '[') {
        false
    } else {
        tokens_match(nodes, id, selector_tokens(selector))
    }
}

fn marker_position(s: &Vec<char>, from: usize) -> (r: usize)
    requires
        from <= s.len(),
    ensures
        r as int == marker_from(s@, from as int),
        from <= r <= s.len(),
{
    let mut i = from;
    while i < s.len() && s[i] != '.' && s[i] != '#'
        invariant
            from <= i <= s.len(),
            marker_from(s@, from as int) == marker_from(s@, i as int),
        decreases s.len() - i,
    {
        i = i + 1;
    }
    i
}

fn string_from(s: &Vec<char>, start: usize, end: usize) -> (r: String)
    requires
        start <= end <= s.len(),
    ensures
        r@ == s@.subrange(start as int, end as int),
{
    let mut out = String::new();
    let mut i = start;
    while i < end
        invariant
            start <= i <= end,
            end <= s.len(),
            out@ == s@.subrange(start as int, i as int),
        decreases end - i,
    {
        push_char(&mut out, s[i]);
        proof {
            assert(out@ =~= s@.subrange(start as int, i + 1));
        }
        i = i + 1;
    }
    out
}

/// Whether node `node_id` is an element matching the compound selector `selector`.
pub fn matches_simple(document: &Document, node_id: NodeId, selector: &str) -> (r: bool)
    requires
        document.wf(),
    ensures
        r == simple_matches(document@, node_id.0 as int, selector@),
{
    let node = match document.node(node_id) {
        Some(node) => node,
        None => {
            return false;
        },
    };
    let element = match &node.kind {
        NodeKind::Element(element) => element,
        _ => {
            return false;
        },
    };
    let chars = chars_of(selector);
    let type_end = marker_position(&chars, 0);
    let element_type = string_from(&chars, 0, type_end);
    if !element_type.as_str().is_empty() && !str_eq(element_type.as_str(), "*") && !str_eq(
        element.name.as_str(),
        element_type.as_str(),
    ) {
        return false;
    }
    let ghost attributes = crate::dom::attributes_view(element.attributes@);
    let mut start = type_end;
    proof {
        assert(chars@.subrange(type_end as int, chars@.len() as int) =~= selector@.subrange(
            type_end as int,
            selector@.len() as int,
        ));
        assert(element_type@ =~= selector@.subrange(0, type_end as int));
        assert(simple_matches(document@, node_id.0 as int, selector@) == qualifiers_match(
            attributes,
            selector@.subrange(type_end as int, selector@.len() as int),
        ));
    }
    while start < chars.len()
        invariant
            type_end <= start <= chars.len(),
            chars@ == selector@,
            attributes == crate::dom::attributes_view(element.attributes@),
            simple_matches(document@, node_id.0 as int, selector@) == qualifiers_match(
                attributes,
                selector@.subrange(start as int, selector@.len() as int),
            ),
        decreases chars.len() - start,
    {
        let ghost rest = selector@.subrange(start as int, selector@.len() as int);
        let marker = chars[start];
        proof {
            assert(rest[0] == marker);
        }
        let end = marker_position(&chars, start + 1);
        let value = string_from(&chars, start + 1, end);
        proof {
            let after = rest.drop_first();
            assert(after =~= selector@.subrange(start + 1, selector@.len() as int));
            assert forall|k: int| start + 1 <= k <= selector@.len() implies marker_from(after, k - start - 1)
                + start + 1 == marker_from(selector@, k) by {
                lemma_marker_shift(selector@, start as int + 1, k);
            }
            assert(marker_from(after, 0) + start + 1 == end);
            assert(after.subrange(0, end - start - 1) =~= value@);
            assert(after.subrange(end - start - 1, after.len() as int) =~= selector@.subrange(
                end as int,
                selector@.len() as int,
            ));
        }
        let matched = if marker == '#' {
            match element.attribute("id") {
                Some(id) => str_eq(id, value.as_str()),
                None => false,
            }
        } else if marker == '.' {
            match element.attribute("class") {
                Some(classes) => !value.as_str().is_empty() && contains_word(classes, value.as_str()),
                None => false,
            }
        } else {
            false
        };
        if !matched {
            return false;
        }
        start = end;
    }
    proof {
        assert(selector@.subrange(start as int, selector@.len() as int).len() == 0);
    }
    true
}

proof fn lemma_marker_shift(s: Seq<char>, offset: int, k: int)
    requires
        0 <= offset <= k <= s.len(),
    ensures
        marker_from(s.subrange(offset, s.len() as int), k - offset) + offset == marker_from(s, k),
    decreases s.len() - k,
{
    if k < s.len() {
        lemma_marker_shift(s, offset, k + 1);
    }
}

/// Whether node `node_id` matches the first `count` tokens of `tokens`.
fn matches_token_prefix(document: &Document, node_id: NodeId, tokens: &[String], count: usize) -> (r:
    bool)
    requires
        document.wf(),
        count <= tokens@.len(),
    ensures
        r == tokens_match(
            document@,
            node_id.0 as int,
            tokens@.map_values(|t: String| t@).subrange(0, count as int),
        ),
    decreases count, 0int,
{
    let ghost all = tokens@.map_values(|t: String| t@);
    let ghost toks = all.subrange(0, count as int);
    if count == 0 {
        return false;
    }
    let last = &tokens[count - 1];
    proof {
        assert(toks.last() == last@);
        assert(toks.drop_last() =~= all.subrange(0, count - 1));
    }
    if str_eq(last.as_str(), ">") || !matches_simple(document, node_id, last.as_str()) {
        return false;
    }
    if count == 1 {
        return true;
    }
    let direct = str_eq(tokens[count - 2].as_str(), ">");
    let remaining = if direct {
        count - 2
    } else {
        count - 1
    };
    proof {
        assert(all.subrange(0, count - 1).last() == tokens@[count - 2]@);
        assert(all.subrange(0, count - 1).drop_last() =~= all.subrange(0, count - 2));
    }
    let parent = match document.node(node_id) {
        Some(node) => match node.parent {
            Some(parent) => parent,
            None => {
                return false;
            },
        },
        None => {
            return false;
        },
    };
    if direct {
        return matches_token_prefix(document, parent, tokens, remaining);
    }
    proof {
        document.lemma_nodes_well_formed();
        assert(tokens_match(document@, node_id.0 as int, toks) == ancestor_matches(
            document@,
            parent.0 as int,
            all.subrange(0, remaining as int),
        ));
    }
    let mut ancestor = parent;
    loop
        invariant
            document.wf(),
            crate::dom::well_formed(document@),
            remaining < count,
            count <= tokens@.len(),
            all == tokens@.map_values(|t: String| t@),
            toks == all.subrange(0, count as int),
            tokens_match(document@, node_id.0 as int, toks) == ancestor_matches(
                document@,
                ancestor.0 as int,
                all.subrange(0, remaining as int),
            ),
        decreases ancestor.0,
    {
        let node = match document.node(ancestor) {
            Some(node) => node,
            None => {
                return false;
            },
        };
        if matches_token_prefix(document, ancestor, tokens, remaining) {
            return true;
        }
        match node.parent {
            Some(next) => {
                proof {
                    assert(next.0 < ancestor.0);
                }
                ancestor = next;
            },
            None => {
                return false;
            },
        }
    }
}

/// Whether node `node_id` matches the complex selector made of `tokens`.
pub fn matches_tokens(document: &Document, node_id: NodeId, tokens: &[String]) -> (r: bool)
    requires
        document.wf(),
    ensures
        r == tokens_match(document@, node_id.0 as int, tokens@.map_values(|t: String| t@)),
{
    proof {
        assert(tokens@.map_values(|t: String| t@).subrange(0, tokens@.len() as int) =~= tokens@.map_values(
            |t: String| t@,
        ));
    }
    matches_token_prefix(document, node_id, tokens, tokens.len())
}

/// Whether node `node_id` matches `selector`.
pub fn selector_matches(document: &Document, node_id: NodeId, selector: &str) -> (r: bool)
    requires
        document.wf(),
    ensures
        r == selector_matches_spec(document@, node_id.0 as int, selector@),
{
    if str_eq(selector, ":root") {
        let parent = match document.node(node_id) {
            Some(node) => match node.parent {
                Some(parent) => parent,
                None => {
                    return false;
                },
            },
            None => {
                return false;
            },
        };
        return match document.node(parent) {
            Some(node) => match node.kind {
                NodeKind::Document => true,
                _ => false,
            },
            None => false,
        };
    }
    let chars = chars_of(selector);
    let mut i: usize = 0;
    while i < chars.len()
        invariant
            i <= chars.len(),
            chars@ == selector@,
            selector@ != ":root"@,
            forall|j: int| 0 <= j < i ==> chars@[j] != ',' && chars@[j] != ':' && chars@[j] != '[',
        decreases chars.len() - i,
    {
        if chars[i] == ',' || chars[i] == ':' || chars[i] == '[' {
            proof {
                assert(selector@[i as int] == chars@[i as int]);
                assert(has_char(selector@, chars@[i as int]));
            }
            return false;
        }
        i = i + 1;
    }
    let tokens = split_selector(selector);
    matches_tokens(document, node_id, tokens.as_slice())
}

/// The number of times `c` occurs in `s`.
pub open spec fn char_count(s: Seq<char>, c: char) -> nat
    decreases s.len(),
{
    if s.len() == 0 {
        0
    } else {
        char_count(s.drop_last(), c) + if s.last() == c {
            1nat
        } else {
            0nat
        }
    }
}

/// White space and `>` separate the parts of a selector.
pub open spec fn is_separator(c: char) -> bool {
    is_white_space(c) || c == '>'
}

/// Position `i` begins a part of the selector that names an element type.
pub open spec fn is_type_start(s: Seq<char>, i: int) -> bool {
    &&& !is_separator(s[i])
    &&& (i == 0 || is_separator(s[i - 1]))
    &&& s[i] != '.' && s[i] != '#' && s[i] != '*'
}

/// The number of parts, among the first `n` positions, that name an element type.
pub open spec fn type_count(s: Seq<char>, n: int) -> nat
    decreases n,
{
    if n <= 0 {
        0
    } else {
        type_count(s, n - 1) + if is_type_start(s, n - 1) {
            1nat
        } else {
            0nat
        }
    }
}

/// `n`, or `u16::MAX` when it does not fit.
pub open spec fn capped(n: nat) -> u16 {
    if n > 65535 {
        65535u16
    } else {
        n as u16
    }
}

/// A selector's specificity: its `#id` count, its `.class` count and its count
/// of parts that name an element type (parts are separated by white space and
/// `>`; those starting with `.`, `#` or `*` name none).
pub open spec fn specificity_spec(selector: Seq<char>) -> Specificity {
    Specificity {
        ids: capped(char_count(selector, '#')),
        classes: capped(char_count(selector, '.')),
        types: capped(type_count(selector, selector.len() as int)),
    }
}

/// A selector's weight in the cascade: its id, class and type counts.
#[derive(Clone, Copy, Debug, PartialEq, Eq, Structural)]
pub struct Specificity {
    pub ids: u16,
    pub classes: u16,
    pub types: u16,
}

fn cap(n: usize) -> (r: u16)
    ensures
        r == capped(n as nat),
{
    if n > 65535 {
        65535
    } else {
        n as u16
    }
}

/// The specificity of `selector`.
pub fn specificity(selector: &str) -> (r: Specificity)
    ensures
        r == specificity_spec(selector@),
{
    let chars = chars_of(selector);
    let mut ids: usize = 0;
    let mut classes: usize = 0;
    let mut types: usize = 0;
    let mut i: usize = 0;
    while i < chars.len()
        invariant
            i <= chars.len(),
            chars@ == selector@,
            ids == char_count(selector@.subrange(0, i as int), '#'),
            classes == char_count(selector@.subrange(0, i as int), '.'),
            types == type_count(selector@, i as int),
            ids <= i && classes <= i && types <= i,
        decreases chars.len() - i,
    {
        let c = chars[i];
        proof {
            assert(selector@.subrange(0, i + 1).drop_last() =~= selector@.subrange(0, i as int));
        }
        if c == '#' {
            ids = ids + 1;
        }
        if c == '.' {
            classes = classes + 1;
        }
        let separator = is_white_space_char(c) || c == '>';
        let after_separator = i == 0 || is_white_space_char(chars[i - 1]) || chars[i - 1] == '>';
        if !separator && after_separator && c != '.' && c != '#' && c != '*' {
            types = types + 1;
        }
        i = i + 1;
    }
    proof {
        assert(selector@.subrange(0, selector@.len() as int) =~= selector@);
    }
    Specificity { ids: cap(ids), classes: cap(classes), types: cap(types) }
}

/// Where a declaration stands in the cascade: `!important` first, then the
/// selector's specificity, then the rule's and the declaration's order.
#[derive(Clone, Copy, Debug, PartialEq, Eq, Structural)]
pub struct CascadeRank {
    pub important: bool,
    pub specificity: Specificity,
    pub source_order: usize,
    pub declaration_order: usize,
}

/// A declaration that competes for a property, with its rank and value.
#[derive(Clone, Debug)]
pub struct CascadeWinner {
    pub important: bool,
    pub specificity: Specificity,
    pub source_order: usize,
    pub declaration_order: usize,
    pub value: String,
}

pub open spec fn rank_of(winner: CascadeWinner) -> CascadeRank {
    CascadeRank {
        important: winner.important,
        specificity: winner.specificity,
        source_order: winner.source_order,
        declaration_order: winner.declaration_order,
    }
}

/// The rank of a competing declaration.
pub fn cascade_rank(winner: &CascadeWinner) -> (r: CascadeRank)
    ensures
        r == rank_of(*winner),
{
    CascadeRank {
        important: winner.important,
        specificity: winner.specificity,
        source_order: winner.source_order,
        declaration_order: winner.declaration_order,
    }
}

/// Whether rank `a` is above rank `b`, comparing the fields in order.
pub open spec fn rank_above(a: CascadeRank, b: CascadeRank) -> bool {
    if a.important != b.important {
        a.important
    } else if a.specificity.ids != b.specificity.ids {
        a.specificity.ids > b.specificity.ids
    } else if a.specificity.classes != b.specificity.classes {
        a.specificity.classes > b.specificity.classes
    } else if a.specificity.types != b.specificity.types {
        a.specificity.types > b.specificity.types
    } else if a.source_order != b.source_order {
        a.source_order > b.source_order
    } else {
        a.declaration_order > b.declaration_order
    }
}

/// Whether text `a` comes after text `b` in character order.
pub open spec fn text_after(a: Seq<char>, b: Seq<char>) -> bool
    decreases a.len(),
{
    if a.len() == 0 {
        false
    } else if b.len() == 0 {
        true
    } else if a[0] != b[0] {
        a[0] > b[0]
    } else {
        text_after(a.drop_first(), b.drop_first())
    }
}

/// Whether `candidate` beats `existing`: a higher rank, or, at an equal rank, a
/// later value in character order.
pub open spec fn beats(candidate: CascadeWinner, existing: CascadeWinner) -> bool {
    rank_above(rank_of(candidate), rank_of(existing)) || (rank_of(candidate) == rank_of(existing)
        && text_after(candidate.value@, existing.value@))
}

pub(crate) fn value_after(a: &str, b: &str) -> (r: bool)
    ensures
        r == text_after(a@, b@),
{
    let x = chars_of(a);
    let y = chars_of(b);
    let mut i: usize = 0;
    proof {
        assert(a@.subrange(0, a@.len() as int) =~= a@);
        assert(b@.subrange(0, b@.len() as int) =~= b@);
    }
    while i < x.len() && i < y.len() && x[i] == y[i]
        invariant
            i <= x.len(),
            i <= y.len(),
            x@ == a@,
            y@ == b@,
            text_after(a@, b@) == text_after(a@.subrange(i as int, a@.len() as int), b@.subrange(i as int, b@.len() as int)),
        decreases x.len() - i,
    {
        proof {
            let sa = a@.subrange(i as int, a@.len() as int);
            let sb = b@.subrange(i as int, b@.len() as int);
            assert(sa.drop_first() =~= a@.subrange(i + 1, a@.len() as int));
            assert(sb.drop_first() =~= b@.subrange(i + 1, b@.len() as int));
        }
        i = i + 1;
    }
    if i == x.len() {
        false
    } else if i == y.len() {
        true
    } else {
        x[i] > y[i]
    }
}

/// Whether `candidate` beats `existing` for a property.
pub fn outranks(candidate: &CascadeWinner, existing: &CascadeWinner) -> (r: bool)
    ensures
        r == beats(*candidate, *existing),
{
    let a = cascade_rank(candidate);
    let b = cascade_rank(existing);
    if a.important != b.important {
        return a.important;
    }
    if a.specificity.ids != b.specificity.ids {
        return a.specificity.ids > b.specificity.ids;
    }
    if a.specificity.classes != b.specificity.classes {
        return a.specificity.classes > b.specificity.classes;
    }
    if a.specificity.types != b.specificity.types {
        return a.specificity.types > b.specificity.types;
    }
    if a.source_order != b.source_order {
        return a.source_order > b.source_order;
    }
    if a.declaration_order != b.declaration_order {
        return a.declaration_order > b.declaration_order;
    }
    value_after(candidate.value.as_str(), existing.value.as_str())
}

/// No declaration beats itself, and of two declarations at most one beats the other.
pub proof fn law_beats_is_a_strict_order(a: CascadeWinner, b: CascadeWinner)
    ensures
        !beats(a, a),
        !(beats(a, b) && beats(b, a)),
{
    lemma_text_after_asymmetric(a.value@, a.value@);
    lemma_text_after_asymmetric(a.value@, b.value@);
}

proof fn lemma_text_after_asymmetric(a: Seq<char>, b: Seq<char>)
    ensures
        !(text_after(a, b) && text_after(b, a)),
    decreases a.len(),
{
    if a.len() > 0 && b.len() > 0 && a[0] == b[0] {
        lemma_text_after_asymmetric(a.drop_first(), b.drop_first());
    }
}

/// The resolved declarations: each standard property (not a custom one) whose
/// value resolves, with the resolved value.
pub open spec fn resolved_declarations_spec(
    properties: Seq<(Seq<char>, Seq<char>)>,
    declarations: Seq<(Seq<char>, CascadeRank, Seq<char>)>,
) -> Seq<(Seq<char>, CascadeRank, Seq<char>)>
    decreases declarations.len(),
{
    if declarations.len() == 0 {
        Seq::empty()
    } else {
        let previous = resolved_declarations_spec(properties, declarations.drop_last());
        let (name, rank, value) = declarations.last();
        if starts_with(name, "--"@) {
            previous
        } else {
            match crate::css::resolve_value(value, properties, Seq::empty(), 0) {
                Some(resolved) => previous.push((name, rank, resolved)),
                None => previous,
            }
        }
    }
}

pub open spec fn declaration_view(entry: (String, CascadeWinner)) -> (Seq<char>, CascadeRank, Seq<char>) {
    (entry.0@, rank_of(entry.1), entry.1.value@)
}

/// Resolves the `var()` references of the winning declarations; custom
/// properties and declarations that do not resolve are left out.
pub fn resolve_declarations(
    custom_properties: &Vec<(String, String)>,
    declarations: &Vec<(String, CascadeWinner)>,
) -> (r: Vec<(String, CascadeWinner)>)
    ensures
        r@.map_values(|e: (String, CascadeWinner)| declaration_view(e)) == resolved_declarations_spec(
            crate::css::properties_view(custom_properties@),
            declarations@.map_values(|e: (String, CascadeWinner)| declaration_view(e)),
        ),
{
    let ghost all = declarations@.map_values(|e: (String, CascadeWinner)| declaration_view(e));
    let ghost props = crate::css::properties_view(custom_properties@);
    let mut out: Vec<(String, CascadeWinner)> = Vec::new();
    let mut i: usize = 0;
    while i < declarations.len()
        invariant
            i <= declarations.len(),
            all == declarations@.map_values(|e: (String, CascadeWinner)| declaration_view(e)),
            props == crate::css::properties_view(custom_properties@),
            out@.map_values(|e: (String, CascadeWinner)| declaration_view(e)) == resolved_declarations_spec(
                props,
                all.subrange(0, i as int),
            ),
        decreases declarations.len() - i,
    {
        let ghost before = out@.map_values(|e: (String, CascadeWinner)| declaration_view(e));
        proof {
            assert(all.subrange(0, i + 1).drop_last() =~= all.subrange(0, i as int));
            assert(all.subrange(0, i + 1).last() == declaration_view(declarations@[i as int]));
        }
        let name = &declarations[i].0;
        let winner = &declarations[i].1;
        if !str_starts_with(name.as_str(), "--") {
            match crate::css::resolve_variables(winner.value.as_str(), custom_properties) {
                Some(value) => {
                    let entry = (
                        name.clone(),
                        CascadeWinner {
                            important: winner.important,
                            specificity: winner.specificity,
                            source_order: winner.source_order,
                            declaration_order: winner.declaration_order,
                            value,
                        },
                    );
                    out.push(entry);
                    proof {
                        assert(out@.map_values(|e: (String, CascadeWinner)| declaration_view(e))
                            =~= before.push(declaration_view(entry)));
                    }
                },
                None => {},
            }
        }
        i = i + 1;
    }
    proof {
        assert(all.subrange(0, all.len() as int) =~= all);
    }
    out
}


/// The most custom properties that an element keeps.
pub const CUSTOM_PROPERTY_LIMIT: usize = 256;

/// The index of the first entry from `i` on named `name`, or -1.
pub open spec fn find_name(entries: Seq<(Seq<char>, Seq<char>)>, name: Seq<char>, i: int) -> int
    decreases entries.len() - i,
{
    if i < 0 || i >= entries.len() {
        -1
    } else if entries[i].0 == name {
        i
    } else {
        find_name(entries, name, i + 1)
    }
}

/// The entries with `name` set to `value`: its first entry is replaced in
/// place, else one is added at the end.
pub open spec fn with_property(entries: Seq<(Seq<char>, Seq<char>)>, name: Seq<char>, value: Seq<char>) -> Seq<
    (Seq<char>, Seq<char>),
> {
    let k = find_name(entries, name, 0);
    if k >= 0 {
        entries.update(k, (name, value))
    } else {
        entries.push((name, value))
    }
}

/// The custom properties after the winning declarations: each custom
/// declaration (`--name`) is set, unless the element already holds
/// [`CUSTOM_PROPERTY_LIMIT`] others.
pub open spec fn custom_properties_after(
    properties: Seq<(Seq<char>, Seq<char>)>,
    declarations: Seq<(Seq<char>, Seq<char>)>,
) -> Seq<(Seq<char>, Seq<char>)>
    decreases declarations.len(),
{
    if declarations.len() == 0 {
        properties
    } else {
        let previous = custom_properties_after(properties, declarations.drop_last());
        let (name, value) = declarations.last();
        if starts_with(name, "--"@) && (find_name(previous, name, 0) >= 0 || previous.len()
            < CUSTOM_PROPERTY_LIMIT) {
            with_property(previous, name, value)
        } else {
            previous
        }
    }
}

proof fn lemma_find_name_skips(entries: Seq<(Seq<char>, Seq<char>)>, name: Seq<char>, i: int)
    requires
        0 <= i <= entries.len(),
        forall|j: int| 0 <= j < i ==> #[trigger] entries[j].0 != name,
    ensures
        find_name(entries, name, 0) == find_name(entries, name, i),
    decreases i,
{
    if i > 0 {
        lemma_find_name_skips(entries, name, i - 1);
        assert(entries[i - 1].0 != name);
    }
}

fn set_property(properties: &mut Vec<(String, String)>, name: &String, value: &String) -> (replaced: bool)
    ensures
        crate::css::properties_view(final(properties)@) == if replaced {
            with_property(crate::css::properties_view(old(properties)@), name@, value@)
        } else {
            crate::css::properties_view(old(properties)@)
        },
        replaced == (find_name(crate::css::properties_view(old(properties)@), name@, 0) >= 0),
{
    let ghost before = crate::css::properties_view(properties@);
    let mut i: usize = 0;
    while i < properties.len()
        invariant
            i <= properties@.len(),
            before == crate::css::properties_view(properties@),
            before == crate::css::properties_view(old(properties)@),
            forall|j: int| 0 <= j < i ==> #[trigger] before[j].0 != name@,
        decreases properties@.len() - i,
    {
        if str_eq(properties[i].0.as_str(), name.as_str()) {
            proof {
                assert(before[i as int].0 == name@);
                lemma_find_name_skips(before, name@, i as int);
            }
            properties.set(i, (name.clone(), value.clone()));
            proof {
                assert(crate::css::properties_view(properties@) =~= before.update(i as int, (name@, value@)));
            }
            return true;
        }
        i = i + 1;
    }
    proof {
        lemma_find_name_skips(before, name@, i as int);
    }
    false
}

/// Sets the custom properties (`--name`) among the winning declarations, in
/// order; a new one is kept only while fewer than
/// [`CUSTOM_PROPERTY_LIMIT`] are held.
pub fn apply_custom_properties(
    custom_properties: &mut Vec<(String, String)>,
    declarations: &Vec<(String, CascadeWinner)>,
)
    ensures
        crate::css::properties_view(final(custom_properties)@) == custom_properties_after(
            crate::css::properties_view(old(custom_properties)@),
            declarations@.map_values(|e: (String, CascadeWinner)| (e.0@, e.1.value@)),
        ),
{
    let ghost start = crate::css::properties_view(custom_properties@);
    let ghost all = declarations@.map_values(|e: (String, CascadeWinner)| (e.0@, e.1.value@));
    let mut i: usize = 0;
    while i < declarations.len()
        invariant
            i <= declarations@.len(),
            start == crate::css::properties_view(old(custom_properties)@),
            all == declarations@.map_values(|e: (String, CascadeWinner)| (e.0@, e.1.value@)),
            crate::css::properties_view(custom_properties@) == custom_properties_after(
                start,
                all.subrange(0, i as int),
            ),
        decreases declarations@.len() - i,
    {
        proof {
            assert(all.subrange(0, i + 1).drop_last() =~= all.subrange(0, i as int));
            assert(all.subrange(0, i + 1).last() == (declarations@[i as int].0@, declarations@[i as int].1.value@));
        }
        let name = &declarations[i].0;
        if str_starts_with(name.as_str(), "--") {
            let ghost before = crate::css::properties_view(custom_properties@);
            let held = custom_properties.len();
            let replaced = set_property(custom_properties, name, &declarations[i].1.value);
            if !replaced {
                if held < CUSTOM_PROPERTY_LIMIT {
                    custom_properties.push((name.clone(), declarations[i].1.value.clone()));
                    proof {
                        assert(crate::css::properties_view(custom_properties@) =~= before.push(
                            (name@, declarations@[i as int].1.value@),
                        ));
                    }
                }
            }
        }
        i = i + 1;
    }
    proof {
        assert(all.subrange(0, all.len() as int) =~= all);
    }
}

/// A computed-style property that a declaration sets to a keyword or an
/// integer, with its new value.
#[derive(Clone, Copy, Debug, PartialEq, Eq, Structural)]
pub enum KeywordUpdate {
    Display(Display),
    FlexDirection(FlexDirection),
    FlexWrap(FlexWrap),
    JustifyContent(FlexJustify),
    AlignItems(FlexAlign),
    BoxSizing(BoxSizing),
    Overflow(Overflow),
    Position(Position),
    WhiteSpace(WhiteSpace),
    FontWeight(FontWeight),
    FontStyle(FontStyle),
    TextAlign(TextAlign),
    ZIndex(i32),
    Order(i32),
}

/// The flex keyword update of a declaration `name: value`, if `name` is one
/// of the flex keyword properties.
pub open spec fn flex_keyword_spec(name: Seq<char>, value: Seq<char>) -> Option<KeywordUpdate> {
    if name == "flex-direction"@ {
        Some(KeywordUpdate::FlexDirection(
            if value == "row-reverse"@ {
                FlexDirection::RowReverse
            } else if value == "column"@ {
                FlexDirection::Column
            } else if value == "column-reverse"@ {
                FlexDirection::ColumnReverse
            } else {
                FlexDirection::Row
            },
        ))
    } else if name == "flex-wrap"@ {
        Some(KeywordUpdate::FlexWrap(
            if value == "wrap"@ {
                FlexWrap::Wrap
            } else {
                FlexWrap::NoWrap
            },
        ))
    } else if name == "justify-content"@ {
        Some(KeywordUpdate::JustifyContent(
            if value == "center"@ {
                FlexJustify::Center
            } else if value == "end"@ || value == "flex-end"@ {
                FlexJustify::End
            } else if value == "space-between"@ {
                FlexJustify::SpaceBetween
            } else if value == "space-around"@ {
                FlexJustify::SpaceAround
            } else if value == "space-evenly"@ {
                FlexJustify::SpaceEvenly
            } else {
                FlexJustify::Start
            },
        ))
    } else if name == "align-items"@ {
        Some(KeywordUpdate::AlignItems(
            if value == "start"@ || value == "flex-start"@ {
                FlexAlign::Start
            } else if value == "center"@ {
                FlexAlign::Center
            } else if value == "end"@ || value == "flex-end"@ {
                FlexAlign::End
            } else {
                FlexAlign::Stretch
            },
        ))
    } else if name == "order"@ {
        match i32_text(value) {
            Some(order) => Some(KeywordUpdate::Order(order)),
            None => None,
        }
    } else {
        None
    }
}

/// The typography keyword update of a declaration `name: value`, if `name` is
/// one of the typography keyword properties.
pub open spec fn typography_keyword_spec(name: Seq<char>, value: Seq<char>) -> Option<KeywordUpdate> {
    if name == "white-space"@ {
        Some(KeywordUpdate::WhiteSpace(
            if value == "pre"@ {
                WhiteSpace::Pre
            } else if value == "pre-wrap"@ {
                WhiteSpace::PreWrap
            } else if value == "nowrap"@ {
                WhiteSpace::NoWrap
            } else {
                WhiteSpace::Normal
            },
        ))
    } else if name == "font-weight"@ {
        Some(KeywordUpdate::FontWeight(
            if value == "bold"@ || value == "700"@ || value == "800"@ || value == "900"@ {
                FontWeight::Bold
            } else {
                FontWeight::Normal
            },
        ))
    } else if name == "font-style"@ {
        Some(KeywordUpdate::FontStyle(
            if value == "italic"@ || value == "oblique"@ {
                FontStyle::Italic
            } else {
                FontStyle::Normal
            },
        ))
    } else if name == "text-align"@ {
        Some(KeywordUpdate::TextAlign(
            if value == "center"@ {
                TextAlign::Center
            } else if value == "right"@ || value == "end"@ {
                TextAlign::End
            } else {
                TextAlign::Start
            },
        ))
    } else {
        None
    }
}

/// The box keyword update of a declaration `name: value`, if `name` is one of
/// the box keyword properties and the value sets it.
pub open spec fn box_keyword_spec(name: Seq<char>, value: Seq<char>) -> Option<KeywordUpdate> {
    if name == "display"@ {
        Some(KeywordUpdate::Display(
            if value == "block"@ {
                Display::Block
            } else if value == "flex"@ {
                Display::Flex
            } else if value == "none"@ {
                Display::Hidden
            } else {
                Display::Inline
            },
        ))
    } else if name == "box-sizing"@ {
        Some(KeywordUpdate::BoxSizing(
            if value == "border-box"@ {
                BoxSizing::BorderBox
            } else {
                BoxSizing::ContentBox
            },
        ))
    } else if name == "overflow"@ {
        if value == "visible"@ {
            Some(KeywordUpdate::Overflow(Overflow::Visible))
        } else if value == "hidden"@ {
            Some(KeywordUpdate::Overflow(Overflow::Hidden))
        } else {
            None
        }
    } else if name == "position"@ {
        Some(KeywordUpdate::Position(
            if value == "relative"@ {
                Position::Relative
            } else if value == "absolute"@ {
                Position::Absolute
            } else {
                Position::Static
            },
        ))
    } else if name == "z-index"@ {
        if value == "auto"@ {
            Some(KeywordUpdate::ZIndex(0))
        } else {
            match i32_text(value) {
                Some(z) => Some(KeywordUpdate::ZIndex(z)),
                None => None,
            }
        }
    } else {
        None
    }
}

/// The keyword or integer update that the declaration `name: value` makes to
/// a computed style: flex properties first, then typography, then the box
/// properties; `None` when the declaration sets no such property (a length,
/// colour or other property, an `overflow` keyword other than `visible` and
/// `hidden`, or an `order` or `z-index` that is not an `i32`).
pub open spec fn keyword_update_spec(name: Seq<char>, value: Seq<char>) -> Option<KeywordUpdate> {
    if flex_keyword_spec(name, value) is Some || is_flex_numeric(name) {
        flex_keyword_spec(name, value)
    } else if typography_keyword_spec(name, value) is Some {
        typography_keyword_spec(name, value)
    } else {
        box_keyword_spec(name, value)
    }
}

/// The flex properties whose values are numbers or lengths.
pub open spec fn is_flex_numeric(name: Seq<char>) -> bool {
    name == "gap"@ || name == "row-gap"@ || name == "column-gap"@ || name == "flex-grow"@ || name
        == "flex-shrink"@ || name == "flex-basis"@
}

fn flex_keyword(name: &str, value: &str) -> (r: Option<KeywordUpdate>)
    ensures
        r == flex_keyword_spec(name@, value@),
{
    if str_eq(name, "flex-direction") {
        Some(KeywordUpdate::FlexDirection(
            if str_eq(value, "row-reverse") {
                FlexDirection::RowReverse
            } else if str_eq(value, "column") {
                FlexDirection::Column
            } else if str_eq(value, "column-reverse") {
                FlexDirection::ColumnReverse
            } else {
                FlexDirection::Row
            },
        ))
    } else if str_eq(name, "flex-wrap") {
        Some(KeywordUpdate::FlexWrap(
            if str_eq(value, "wrap") {
                FlexWrap::Wrap
            } else {
                FlexWrap::NoWrap
            },
        ))
    } else if str_eq(name, "justify-content") {
        Some(KeywordUpdate::JustifyContent(
            if str_eq(value, "center") {
                FlexJustify::Center
            } else if str_eq(value, "end") || str_eq(value, "flex-end") {
                FlexJustify::End
            } else if str_eq(value, "space-between") {
                FlexJustify::SpaceBetween
            } else if str_eq(value, "space-around") {
                FlexJustify::SpaceAround
            } else if str_eq(value, "space-evenly") {
                FlexJustify::SpaceEvenly
            } else {
                FlexJustify::Start
            },
        ))
    } else if str_eq(name, "align-items") {
        Some(KeywordUpdate::AlignItems(
            if str_eq(value, "start") || str_eq(value, "flex-start") {
                FlexAlign::Start
            } else if str_eq(value, "center") {
                FlexAlign::Center
            } else if str_eq(value, "end") || str_eq(value, "flex-end") {
                FlexAlign::End
            } else {
                FlexAlign::Stretch
            },
        ))
    } else if str_eq(name, "order") {
        match parse_i32(value) {
            Some(order) => Some(KeywordUpdate::Order(order)),
            None => None,
        }
    } else {
        None
    }
}

fn typography_keyword(name: &str, value: &str) -> (r: Option<KeywordUpdate>)
    ensures
        r == typography_keyword_spec(name@, value@),
{
    if str_eq(name, "white-space") {
        Some(KeywordUpdate::WhiteSpace(
            if str_eq(value, "pre") {
                WhiteSpace::Pre
            } else if str_eq(value, "pre-wrap") {
                WhiteSpace::PreWrap
            } else if str_eq(value, "nowrap") {
                WhiteSpace::NoWrap
            } else {
                WhiteSpace::Normal
            },
        ))
    } else if str_eq(name, "font-weight") {
        Some(KeywordUpdate::FontWeight(
            if str_eq(value, "bold") || str_eq(value, "700") || str_eq(value, "800") || str_eq(value, "900") {
                FontWeight::Bold
            } else {
                FontWeight::Normal
            },
        ))
    } else if str_eq(name, "font-style") {
        Some(KeywordUpdate::FontStyle(
            if str_eq(value, "italic") || str_eq(value, "oblique") {
                FontStyle::Italic
            } else {
                FontStyle::Normal
            },
        ))
    } else if str_eq(name, "text-align") {
        Some(KeywordUpdate::TextAlign(
            if str_eq(value, "center") {
                TextAlign::Center
            } else if str_eq(value, "right") || str_eq(value, "end") {
                TextAlign::End
            } else {
                TextAlign::Start
            },
        ))
    } else {
        None
    }
}

fn box_keyword(name: &str, value: &str) -> (r: Option<KeywordUpdate>)
    ensures
        r == box_keyword_spec(name@, value@),
{
    if str_eq(name, "display") {
        Some(KeywordUpdate::Display(
            if str_eq(value, "block") {
                Display::Block
            } else if str_eq(value, "flex") {
                Display::Flex
            } else if str_eq(value, "none") {
                Display::Hidden
            } else {
                Display::Inline
            },
        ))
    } else if str_eq(name, "box-sizing") {
        Some(KeywordUpdate::BoxSizing(
            if str_eq(value, "border-box") {
                BoxSizing::BorderBox
            } else {
                BoxSizing::ContentBox
            },
        ))
    } else if str_eq(name, "overflow") {
        if str_eq(value, "visible") {
            Some(KeywordUpdate::Overflow(Overflow::Visible))
        } else if str_eq(value, "hidden") {
            Some(KeywordUpdate::Overflow(Overflow::Hidden))
        } else {
            None
        }
    } else if str_eq(name, "position") {
        Some(KeywordUpdate::Position(
            if str_eq(value, "relative") {
                Position::Relative
            } else if str_eq(value, "absolute") {
                Position::Absolute
            } else {
                Position::Static
            },
        ))
    } else if str_eq(name, "z-index") {
        if str_eq(value, "auto") {
            Some(KeywordUpdate::ZIndex(0))
        } else {
            match parse_i32(value) {
                Some(z) => Some(KeywordUpdate::ZIndex(z)),
                None => None,
            }
        }
    } else {
        None
    }
}

/// The keyword or integer update that the declaration `name: value` makes to
/// a computed style, as the cascade applies it.
pub fn keyword_update(name: &str, value: &str) -> (r: Option<KeywordUpdate>)
    ensures
        r == keyword_update_spec(name@, value@),
{
    let flex = flex_keyword(name, value);
    if flex.is_some() || str_eq(name, "gap") || str_eq(name, "row-gap") || str_eq(name, "column-gap")
        || str_eq(name, "flex-grow") || str_eq(name, "flex-shrink") || str_eq(name, "flex-basis") {
        return flex;
    }
    let typography = typography_keyword(name, value);
    if typography.is_some() {
        return typography;
    }
    box_keyword(name, value)
}

proof fn lemma_char_count_push(s: Seq<char>, c: char, d: char)
    ensures
        char_count(s.push(c), d) == char_count(s, d) + if c == d {
            1nat
        } else {
            0nat
        },
{
    assert(s.push(c).drop_last() =~= s);
}

/// Each `.` of a selector is one class qualifier and each `#` one id: a
/// selector with neither has no class or id weight, appending a `.` adds one
/// class (up to the `u16` cap) and leaves the id count alone, appending a `#`
/// adds one id and leaves the class count alone, and appending any other
/// character changes neither.
pub proof fn law_specificity_counts_qualifiers(selector: Seq<char>, c: char)
    ensures
        !selector.contains('.') ==> specificity_spec(selector).classes == 0,
        !selector.contains('#') ==> specificity_spec(selector).ids == 0,
        specificity_spec(selector.push('.')).classes as int == if specificity_spec(selector).classes == 65535 {
            65535
        } else {
            specificity_spec(selector).classes + 1
        },
        specificity_spec(selector.push('.')).ids == specificity_spec(selector).ids,
        specificity_spec(selector.push('#')).ids as int == if specificity_spec(selector).ids == 65535 {
            65535
        } else {
            specificity_spec(selector).ids + 1
        },
        specificity_spec(selector.push('#')).classes == specificity_spec(selector).classes,
        c != '.' && c != '#' ==> specificity_spec(selector.push(c)).classes == specificity_spec(selector).classes
            && specificity_spec(selector.push(c)).ids == specificity_spec(selector).ids,
{
    lemma_char_count_push(selector, '.', '.');
    lemma_char_count_push(selector, '.', '#');
    lemma_char_count_push(selector, '#', '#');
    lemma_char_count_push(selector, '#', '.');
    lemma_char_count_push(selector, c, '.');
    lemma_char_count_push(selector, c, '#');
    if !selector.contains('.') {
        lemma_char_count_absent(selector, '.');
    }
    if !selector.contains('#') {
        lemma_char_count_absent(selector, '#');
    }
}

proof fn lemma_char_count_absent(s: Seq<char>, c: char)
    requires
        !s.contains(c),
    ensures
        char_count(s, c) == 0,
    decreases s.len(),
{
    if s.len() > 0 {
        assert(s.last() == s[s.len() - 1]);
        let t = s.drop_last();
        assert(!t.contains(c)) by {
            if t.contains(c) {
                let i = choose|i: int| 0 <= i < t.len() && t[i] == c;
                assert(s[i] == c);
            }
        }
        lemma_char_count_absent(t, c);
    }
}

proof fn lemma_property_names()
    ensures
        "flex-direction"@.len() == 14 && "flex-direction"@[0] == 'f' && "flex-direction"@[5] == 'd',
        "flex-wrap"@.len() == 9 && "flex-wrap"@[0] == 'f' && "flex-wrap"@[5] == 'w',
        "justify-content"@.len() == 15,
        "align-items"@.len() == 11 && "align-items"@[0] == 'a',
        "order"@.len() == 5,
        "gap"@.len() == 3,
        "row-gap"@.len() == 7 && "row-gap"@[0] == 'r',
        "column-gap"@.len() == 10 && "column-gap"@[0] == 'c',
        "flex-grow"@.len() == 9 && "flex-grow"@[0] == 'f' && "flex-grow"@[5] == 'g',
        "flex-shrink"@.len() == 11 && "flex-shrink"@[0] == 'f' && "flex-shrink"@[1] == 'l',
        "flex-basis"@.len() == 10 && "flex-basis"@[0] == 'f' && "flex-basis"@[1] == 'l',
        "white-space"@.len() == 11 && "white-space"@[0] == 'w',
        "font-weight"@.len() == 11 && "font-weight"@[0] == 'f' && "font-weight"@[1] == 'o',
        "font-style"@.len() == 10 && "font-style"@[0] == 'f' && "font-style"@[1] == 'o',
        "text-align"@.len() == 10 && "text-align"@[0] == 't',
        "display"@.len() == 7 && "display"@[0] == 'd',
        "box-sizing"@.len() == 10 && "box-sizing"@[0] == 'b',
        "overflow"@.len() == 8 && "overflow"@[0] == 'o',
        "position"@.len() == 8 && "position"@[0] == 'p',
        "z-index"@.len() == 7 && "z-index"@[0] == 'z',
{
    reveal_strlit("flex-direction");
    reveal_strlit("flex-wrap");
    reveal_strlit("justify-content");
    reveal_strlit("align-items");
    reveal_strlit("order");
    reveal_strlit("gap");
    reveal_strlit("row-gap");
    reveal_strlit("column-gap");
    reveal_strlit("flex-grow");
    reveal_strlit("flex-shrink");
    reveal_strlit("flex-basis");
    reveal_strlit("white-space");
    reveal_strlit("font-weight");
    reveal_strlit("font-style");
    reveal_strlit("text-align");
    reveal_strlit("display");
    reveal_strlit("box-sizing");
    reveal_strlit("overflow");
    reveal_strlit("position");
    reveal_strlit("z-index");
}

/// `text-align` keeps its own keywords apart: `center` centres, `right` and
/// `end` align to the end, and every other value to the start.
pub proof fn law_text_align_keywords(value: Seq<char>)
    ensures
        keyword_update_spec("text-align"@, value) == Some(KeywordUpdate::TextAlign(TextAlign::Center)) <==> value
            == "center"@,
        keyword_update_spec("text-align"@, value) == Some(KeywordUpdate::TextAlign(TextAlign::End)) <==> (value
            == "right"@ || value == "end"@),
        keyword_update_spec("text-align"@, value) == Some(KeywordUpdate::TextAlign(TextAlign::Start)) <==> !(value
            == "center"@ || value == "right"@ || value == "end"@),
{
    lemma_property_names();
    reveal_strlit("center");
    reveal_strlit("right");
    reveal_strlit("end");
}

/// `display` keeps its own keywords apart: `block`, `flex` and `none` each give their own display, and every other value gives inline.
pub proof fn law_display_keywords(value: Seq<char>)
    ensures
        keyword_update_spec("display"@, value) == Some(KeywordUpdate::Display(Display::Block)) <==> (value == "block"@),
        keyword_update_spec("display"@, value) == Some(KeywordUpdate::Display(Display::Flex)) <==> (value == "flex"@),
        keyword_update_spec("display"@, value) == Some(KeywordUpdate::Display(Display::Hidden)) <==> (value == "none"@),
        keyword_update_spec("display"@, value) == Some(KeywordUpdate::Display(Display::Inline)) <==> !(value == "block"@ || value == "flex"@ || value == "none"@),
{
    lemma_property_names();
    reveal_strlit("block");
    reveal_strlit("flex");
    reveal_strlit("none");
    assert("flex"@[0] != "none"@[0]);
}

/// `position` keeps its own keywords apart: `relative` and `absolute` each give their own positioning, and every other value gives static.
pub proof fn law_position_keywords(value: Seq<char>)
    ensures
        keyword_update_spec("position"@, value) == Some(KeywordUpdate::Position(Position::Relative)) <==> (value == "relative"@),
        keyword_update_spec("position"@, value) == Some(KeywordUpdate::Position(Position::Absolute)) <==> (value == "absolute"@),
        keyword_update_spec("position"@, value) == Some(KeywordUpdate::Position(Position::Static)) <==> !(value == "relative"@ || value == "absolute"@),
{
    lemma_property_names();
    reveal_strlit("relative");
    reveal_strlit("absolute");
}

/// `box-sizing` is the border box exactly for `border-box`, and the content box otherwise.
pub proof fn law_box_sizing_keywords(value: Seq<char>)
    ensures
        keyword_update_spec("box-sizing"@, value) == Some(KeywordUpdate::BoxSizing(BoxSizing::BorderBox)) <==> (value == "border-box"@),
        keyword_update_spec("box-sizing"@, value) == Some(KeywordUpdate::BoxSizing(BoxSizing::ContentBox)) <==> !(value == "border-box"@),
{
    lemma_property_names();
    reveal_strlit("border-box");
}

/// `flex-direction` keeps its own keywords apart: `row-reverse`, `column` and `column-reverse` each give their own direction, and every other value gives row.
pub proof fn law_flex_direction_keywords(value: Seq<char>)
    ensures
        keyword_update_spec("flex-direction"@, value) == Some(KeywordUpdate::FlexDirection(FlexDirection::RowReverse)) <==> (value == "row-reverse"@),
        keyword_update_spec("flex-direction"@, value) == Some(KeywordUpdate::FlexDirection(FlexDirection::Column)) <==> (value == "column"@),
        keyword_update_spec("flex-direction"@, value) == Some(KeywordUpdate::FlexDirection(FlexDirection::ColumnReverse)) <==> (value == "column-reverse"@),
        keyword_update_spec("flex-direction"@, value) == Some(KeywordUpdate::FlexDirection(FlexDirection::Row)) <==> !(value == "row-reverse"@ || value == "column"@ || value == "column-reverse"@),
{
    lemma_property_names();
    reveal_strlit("row-reverse");
    reveal_strlit("column");
    reveal_strlit("column-reverse");
}

/// `flex-wrap` wraps exactly for `wrap`.
pub proof fn law_flex_wrap_keywords(value: Seq<char>)
    ensures
        keyword_update_spec("flex-wrap"@, value) == Some(KeywordUpdate::FlexWrap(FlexWrap::Wrap)) <==> (value == "wrap"@),
        keyword_update_spec("flex-wrap"@, value) == Some(KeywordUpdate::FlexWrap(FlexWrap::NoWrap)) <==> !(value == "wrap"@),
{
    lemma_property_names();
    reveal_strlit("wrap");
}

/// `justify-content` keeps its own keywords apart: `center`, `end` or `flex-end`, `space-between`, `space-around` and `space-evenly` each give their own justification, and every other value gives start.
pub proof fn law_justify_content_keywords(value: Seq<char>)
    ensures
        keyword_update_spec("justify-content"@, value) == Some(KeywordUpdate::JustifyContent(FlexJustify::Center)) <==> (value == "center"@),
        keyword_update_spec("justify-content"@, value) == Some(KeywordUpdate::JustifyContent(FlexJustify::End)) <==> (value == "end"@ || value == "flex-end"@),
        keyword_update_spec("justify-content"@, value) == Some(KeywordUpdate::JustifyContent(FlexJustify::SpaceBetween)) <==> (value == "space-between"@),
        keyword_update_spec("justify-content"@, value) == Some(KeywordUpdate::JustifyContent(FlexJustify::SpaceAround)) <==> (value == "space-around"@),
        keyword_update_spec("justify-content"@, value) == Some(KeywordUpdate::JustifyContent(FlexJustify::SpaceEvenly)) <==> (value == "space-evenly"@),
        keyword_update_spec("justify-content"@, value) == Some(KeywordUpdate::JustifyContent(FlexJustify::Start)) <==> !(value == "center"@ || value == "end"@ || value == "flex-end"@ || value == "space-between"@ || value == "space-around"@ || value == "space-evenly"@),
{
    lemma_property_names();
    reveal_strlit("center");
    reveal_strlit("end");
    reveal_strlit("flex-end");
    reveal_strlit("space-between");
    reveal_strlit("space-around");
    reveal_strlit("space-evenly");
    assert("space-around"@[6] != "space-evenly"@[6]);
}

/// `align-items` keeps its own keywords apart: `start` or `flex-start`, `center`, and `end` or `flex-end` each give their own alignment, and every other value stretches.
pub proof fn law_align_items_keywords(value: Seq<char>)
    ensures
        keyword_update_spec("align-items"@, value) == Some(KeywordUpdate::AlignItems(FlexAlign::Start)) <==> (value == "start"@ || value == "flex-start"@),
        keyword_update_spec("align-items"@, value) == Some(KeywordUpdate::AlignItems(FlexAlign::Center)) <==> (value == "center"@),
        keyword_update_spec("align-items"@, value) == Some(KeywordUpdate::AlignItems(FlexAlign::End)) <==> (value == "end"@ || value == "flex-end"@),
        keyword_update_spec("align-items"@, value) == Some(KeywordUpdate::AlignItems(FlexAlign::Stretch)) <==> !(value == "start"@ || value == "flex-start"@ || value == "center"@ || value == "end"@ || value == "flex-end"@),
{
    lemma_property_names();
    reveal_strlit("start");
    reveal_strlit("flex-start");
    reveal_strlit("center");
    reveal_strlit("end");
    reveal_strlit("flex-end");
}

/// `white-space` keeps its own keywords apart: `pre`, `pre-wrap` and `nowrap` each give their own handling, and every other value gives normal.
pub proof fn law_white_space_keywords(value: Seq<char>)
    ensures
        keyword_update_spec("white-space"@, value) == Some(KeywordUpdate::WhiteSpace(WhiteSpace::Pre)) <==> (value == "pre"@),
        keyword_update_spec("white-space"@, value) == Some(KeywordUpdate::WhiteSpace(WhiteSpace::PreWrap)) <==> (value == "pre-wrap"@),
        keyword_update_spec("white-space"@, value) == Some(KeywordUpdate::WhiteSpace(WhiteSpace::NoWrap)) <==> (value == "nowrap"@),
        keyword_update_spec("white-space"@, value) == Some(KeywordUpdate::WhiteSpace(WhiteSpace::Normal)) <==> !(value == "pre"@ || value == "pre-wrap"@ || value == "nowrap"@),
{
    lemma_property_names();
    reveal_strlit("pre");
    reveal_strlit("pre-wrap");
    reveal_strlit("nowrap");
}

/// `font-weight` is bold exactly for `bold`, `700`, `800` and `900`.
pub proof fn law_font_weight_keywords(value: Seq<char>)
    ensures
        keyword_update_spec("font-weight"@, value) == Some(KeywordUpdate::FontWeight(FontWeight::Bold)) <==> (value == "bold"@ || value == "700"@ || value == "800"@ || value == "900"@),
        keyword_update_spec("font-weight"@, value) == Some(KeywordUpdate::FontWeight(FontWeight::Normal)) <==> !(value == "bold"@ || value == "700"@ || value == "800"@ || value == "900"@),
{
    lemma_property_names();
    reveal_strlit("bold");
    reveal_strlit("700");
    reveal_strlit("800");
    reveal_strlit("900");
}

/// `font-style` is italic exactly for `italic` and `oblique`.
pub proof fn law_font_style_keywords(value: Seq<char>)
    ensures
        keyword_update_spec("font-style"@, value) == Some(KeywordUpdate::FontStyle(FontStyle::Italic)) <==> (value == "italic"@ || value == "oblique"@),
        keyword_update_spec("font-style"@, value) == Some(KeywordUpdate::FontStyle(FontStyle::Normal)) <==> !(value == "italic"@ || value == "oblique"@),
{
    lemma_property_names();
    reveal_strlit("italic");
    reveal_strlit("oblique");
}

/// `overflow` is set only by its two keywords: `visible` and `hidden` each give
/// their own overflow, and any other value leaves the style alone.
pub proof fn law_overflow_keywords(value: Seq<char>)
    ensures
        keyword_update_spec("overflow"@, value) == Some(KeywordUpdate::Overflow(Overflow::Visible)) <==> value
            == "visible"@,
        keyword_update_spec("overflow"@, value) == Some(KeywordUpdate::Overflow(Overflow::Hidden)) <==> value
            == "hidden"@,
        keyword_update_spec("overflow"@, value) is None <==> !(value == "visible"@ || value == "hidden"@),
{
    lemma_property_names();
    reveal_strlit("visible");
    reveal_strlit("hidden");
}

/// `z-index` is 0 for `auto` and otherwise the integer that the value writes,
/// as `str::parse::<i32>` reads it; a value that writes none leaves the style
/// alone.
pub proof fn law_z_index(value: Seq<char>, z: i32)
    ensures
        value == "auto"@ ==> keyword_update_spec("z-index"@, value) == Some(KeywordUpdate::ZIndex(0)),
        value != "auto"@ ==> (keyword_update_spec("z-index"@, value) == Some(KeywordUpdate::ZIndex(z)) <==> i32_text(
            value,
        ) == Some(z)),
        value != "auto"@ ==> (keyword_update_spec("z-index"@, value) is None <==> i32_text(value) is None),
{
    lemma_property_names();
}

/// `order` is the integer that the value writes, as `str::parse::<i32>` reads
/// it; a value that writes none leaves the style alone.
pub proof fn law_order(value: Seq<char>, order: i32)
    ensures
        keyword_update_spec("order"@, value) == Some(KeywordUpdate::Order(order)) <==> i32_text(value) == Some(order),
        keyword_update_spec("order"@, value) is None <==> i32_text(value) is None,
{
    lemma_property_names();
}

/// Only the keyword properties make a keyword update: any other property
/// (a length, a colour, a number, or a name the cascade does not know) makes none.
pub proof fn law_other_properties_make_no_keyword_update(name: Seq<char>, value: Seq<char>)
    requires
        name != "display"@ && name != "position"@ && name != "box-sizing"@ && name != "overflow"@ && name
            != "z-index"@ && name != "flex-direction"@ && name != "flex-wrap"@ && name != "justify-content"@
            && name != "align-items"@ && name != "order"@ && name != "white-space"@ && name != "font-weight"@
            && name != "font-style"@ && name != "text-align"@,
    ensures
        keyword_update_spec(name, value) is None,
{
}

proof fn lemma_type_count_same(s: Seq<char>, t: Seq<char>, n: int)
    requires
        0 <= n <= s.len(),
        n <= t.len(),
        forall|i: int| 0 <= i < n ==> s[i] == t[i],
    ensures
        type_count(s, n) == type_count(t, n),
    decreases n,
{
    if n > 0 {
        lemma_type_count_same(s, t, n - 1);
    }
}

/// Each part of a selector that names an element type adds one type: a
/// character that is no separator and no `.`, `#` or `*`, written first or
/// after a separator (white space or `>`), adds one type (up to the `u16` cap);
/// any other appended character leaves the type count alone.
pub proof fn law_specificity_counts_types(selector: Seq<char>, c: char)
    ensures
        specificity_spec(Seq::<char>::empty()).types == 0,
        specificity_spec(selector.push(c)).types as int == if !is_separator(c) && c != '.' && c != '#' && c != '*'
            && (selector.len() == 0 || is_separator(selector.last())) {
            if specificity_spec(selector).types == 65535 {
                65535
            } else {
                specificity_spec(selector).types + 1
            }
        } else {
            specificity_spec(selector).types as int
        },
{
    let pushed = selector.push(c);
    lemma_type_count_same(selector, pushed, selector.len() as int);
    let n = selector.len() as int;
    assert(pushed[n] == c);
    if n > 0 {
        assert(pushed[n - 1] == selector.last());
    }
}

proof fn lemma_text_after_total(a: Seq<char>, b: Seq<char>)
    requires
        a != b,
    ensures
        text_after(a, b) || text_after(b, a),
    decreases a.len(),
{
    if a.len() > 0 && b.len() > 0 && a[0] == b[0] {
        if a.drop_first() == b.drop_first() {
            assert(a =~= seq![a[0]] + a.drop_first());
            assert(b =~= seq![b[0]] + b.drop_first());
        }
        lemma_text_after_total(a.drop_first(), b.drop_first());
    } else if a.len() == 0 && b.len() == 0 {
        assert(a =~= b);
    }
}

/// How the cascade picks between two declarations of a property: an
/// `!important` one beats one that is not; between equally important ones,
/// more ids win, then more classes, then more types; at equal specificity the
/// later rule wins, then the later declaration in the rule. Of two
/// declarations that differ in rank or value, exactly one beats the other.
pub proof fn law_cascade_order(a: CascadeWinner, b: CascadeWinner)
    ensures
        a.important && !b.important ==> beats(a, b),
        a.important == b.important && a.specificity.ids > b.specificity.ids ==> beats(a, b),
        a.important == b.important && a.specificity.ids == b.specificity.ids && a.specificity.classes
            > b.specificity.classes ==> beats(a, b),
        a.important == b.important && a.specificity.ids == b.specificity.ids && a.specificity.classes
            == b.specificity.classes && a.specificity.types > b.specificity.types ==> beats(a, b),
        a.important == b.important && a.specificity == b.specificity && a.source_order > b.source_order
            ==> beats(a, b),
        a.important == b.important && a.specificity == b.specificity && a.source_order == b.source_order
            && a.declaration_order > b.declaration_order ==> beats(a, b),
        (rank_of(a) != rank_of(b) || a.value@ != b.value@) ==> (beats(a, b) != beats(b, a)),
{
    law_beats_is_a_strict_order(a, b);
    if rank_of(a) == rank_of(b) && a.value@ != b.value@ {
        lemma_text_after_total(a.value@, b.value@);
    }
}

/// Whether `s` holds no `.` or `#`.
pub open spec fn unmarked(s: Seq<char>) -> bool {
    forall|i: int| 0 <= i < s.len() ==> s[i] != '.' && s[i] != '#'
}

proof fn lemma_marker_after_unmarked(a: Seq<char>, b: Seq<char>, i: int)
    requires
        0 <= i <= a.len(),
        unmarked(a),
    ensures
        marker_from(a + b, i) == a.len() + marker_from(b, 0),
    decreases a.len() - i,
{
    let s = a + b;
    if i < a.len() {
        assert(s[i] == a[i]);
        lemma_marker_after_unmarked(a, b, i + 1);
    } else {
        lemma_marker_past_prefix(a, b, 0);
    }
}

proof fn lemma_marker_past_prefix(a: Seq<char>, b: Seq<char>, j: int)
    requires
        0 <= j <= b.len(),
    ensures
        marker_from(a + b, a.len() + j) == a.len() + marker_from(b, j),
    decreases b.len() - j,
{
    let s = a + b;
    if j < b.len() {
        assert(s[a.len() + j] == b[j]);
        lemma_marker_past_prefix(a, b, j + 1);
    }
}

proof fn lemma_unmarked_marker(a: Seq<char>)
    requires
        unmarked(a),
    ensures
        marker_from(a, 0) == a.len(),
{
    lemma_marker_after_unmarked(a, Seq::empty(), 0);
    assert(a + Seq::<char>::empty() =~= a);
}

/// Whether attributes give the element the class `word`.
pub open spec fn has_class(attributes: Seq<(Seq<char>, Seq<char>)>, word: Seq<char>) -> bool {
    first_attribute(attributes, "class"@) matches Some(classes) && has_word(classes, word)
}

/// Compound selectors qualify an element part by part: a bare name matches
/// elements of that type (and `*` every element); `.c` matches elements with
/// the class `c`, `#i` those with the id `i`; a type followed by a class
/// matches what both match; and two classes in a row match elements with
/// both. Names here hold no `.` or `#`, and class and id names are not empty.
pub proof fn law_compound_selectors(
    nodes: Seq<NodeView>,
    id: int,
    name: Seq<char>,
    attributes: Seq<(Seq<char>, Seq<char>)>,
    word: Seq<char>,
    other: Seq<char>,
)
    requires
        0 <= id < nodes.len(),
        nodes[id].kind == (KindView::Element { name, attributes }),
        word.len() > 0 && unmarked(word),
        other.len() > 0 && unmarked(other),
    ensures
        simple_matches(nodes, id, word) <==> (word == "*"@ || word == name),
        simple_matches(nodes, id, seq!['.'] + word) <==> has_class(attributes, word),
        simple_matches(nodes, id, seq!['#'] + word) <==> first_attribute(attributes, "id"@) == Some(word),
        simple_matches(nodes, id, word + seq!['.'] + other) <==> (simple_matches(nodes, id, word) && has_class(
            attributes,
            other,
        )),
        simple_matches(nodes, id, seq!['.'] + word + seq!['.'] + other) <==> (has_class(attributes, word)
            && has_class(attributes, other)),
{
    lemma_unmarked_marker(word);
    lemma_unmarked_marker(other);
    assert(word.subrange(0, word.len() as int) =~= word);
    assert(word.subrange(word.len() as int, word.len() as int) =~= Seq::<char>::empty());
    assert(qualifiers_match(attributes, Seq::<char>::empty()));
    // `.word`
    let dot_word = seq!['.'] + word;
    assert(marker_from(dot_word, 0) == 0);
    assert(dot_word.subrange(0, 0) =~= Seq::<char>::empty());
    assert(dot_word.subrange(0, dot_word.len() as int) =~= dot_word);
    assert(dot_word.drop_first() =~= word);
    assert(word.subrange(word.len() as int, word.len() as int) =~= Seq::<char>::empty());
    // `#word`
    let hash_word = seq!['#'] + word;
    assert(marker_from(hash_word, 0) == 0);
    assert(hash_word.subrange(0, 0) =~= Seq::<char>::empty());
    assert(hash_word.subrange(0, hash_word.len() as int) =~= hash_word);
    assert(hash_word.drop_first() =~= word);
    // `.other`
    let dot_other = seq!['.'] + other;
    assert(dot_other.drop_first() =~= other);
    assert(marker_from(dot_other, 0) == 0);
    assert(other.subrange(0, other.len() as int) =~= other);
    assert(other.subrange(other.len() as int, other.len() as int) =~= Seq::<char>::empty());
    // `word.other`
    let typed = word + dot_other;
    assert(word + seq!['.'] + other =~= typed);
    lemma_marker_after_unmarked(word, dot_other, 0);
    assert(typed.subrange(0, word.len() as int) =~= word);
    assert(typed.subrange(word.len() as int, typed.len() as int) =~= dot_other);
    // `.word.other`
    let both = seq!['.'] + word + seq!['.'] + other;
    assert(both.subrange(0, 0) =~= Seq::<char>::empty());
    assert(both.subrange(0, both.len() as int) =~= both);
    assert(both.drop_first() =~= typed);
    assert(marker_from(both, 0) == 0);
    assert(typed.subrange(0, word.len() as int) =~= word);
    assert(marker_from(typed, 0) == word.len());
    assert(qualifiers_match(attributes, dot_other) == has_class(attributes, other));
    assert(qualifiers_match(attributes, both) == (has_class(attributes, word) && qualifiers_match(attributes, dot_other)));
    reveal_strlit("*");
}

/// Every property that makes a keyword update is one the style engine
/// supports, so no keyword rule is for a property the parser drops.
pub proof fn law_keyword_properties_are_supported(name: Seq<char>, value: Seq<char>)
    ensures
        keyword_update_spec(name, value) is Some ==> crate::css::supported_property_spec(name),
{
    if keyword_update_spec(name, value) is Some {
        if !(name == "display"@ || name == "position"@ || name == "box-sizing"@ || name == "overflow"@ || name
            == "z-index"@ || name == "flex-direction"@ || name == "flex-wrap"@ || name == "justify-content"@
            || name == "align-items"@ || name == "order"@ || name == "white-space"@ || name == "font-weight"@
            || name == "font-style"@ || name == "text-align"@) {
            law_other_properties_make_no_keyword_update(name, value);
        }
        assert(crate::css::supported_names()[0] == "display"@);
        assert(crate::css::supported_names()[7] == "white-space"@);
        assert(crate::css::supported_names()[8] == "font-weight"@);
        assert(crate::css::supported_names()[9] == "font-style"@);
        assert(crate::css::supported_names()[10] == "text-align"@);
        assert(crate::css::supported_names()[32] == "box-sizing"@);
        assert(crate::css::supported_names()[33] == "overflow"@);
        assert(crate::css::supported_names()[34] == "flex-direction"@);
        assert(crate::css::supported_names()[35] == "flex-wrap"@);
        assert(crate::css::supported_names()[36] == "justify-content"@);
        assert(crate::css::supported_names()[37] == "align-items"@);
        assert(crate::css::supported_names()[45] == "order"@);
        assert(crate::css::supported_names()[46] == "position"@);
        assert(crate::css::supported_names()[51] == "z-index"@);
    }
}

} // verus!
