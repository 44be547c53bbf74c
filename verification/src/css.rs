//! CSS custom properties: substituting `var(--name, fallback)` references, and
//! the properties that the style engine supports.
//!
//! Values are tokenized by the `cssparser` crate one component at a time; what
//! is done with the components is this module's.

use vstd::prelude::*;

use cssparser::ParseError;
use cssparser::ToCss;
use cssparser::Token as T;

use self::CssTokenKind as K;

use crate::text::{
    ascii_lower, ascii_lowercase, chars_of, opt_view, push_char, starts_with, str_eq, str_starts_with, trim,
    trimmed, utf8_len,
};

verus! {

/// A declaration of a rule: a property, its value and whether it is `!important`.
#[derive(Clone, Debug)]
pub struct Declaration {
    pub name: String,
    pub value: String,
    pub important: bool,
}

/// The kind of a CSS token, with what this module reads of it.
#[derive(Clone, Debug)]
pub enum CssTokenKind {
    WhiteSpace,
    Comment,
    Ident(String),
    /// A quoted string, by its value.
    Quoted(String),
    Comma,
    /// A function token, by its name; its arguments form a block closed by `)`.
    Function(String),
    /// The start of a `(`, `[` or `{` block, with its closing character.
    Block(char),
    Other,
}

/// The first component of a text: its token, the token's CSS serialisation, the
/// text after the token, and the text after the whole component (after the
/// block that a function or bracket token opens).
#[derive(Clone, Debug)]
pub struct CssToken {
    pub kind: CssTokenKind,
    pub css: String,
    pub after_open: String,
    pub after: String,
}

pub enum CssKindView {
    WhiteSpace,
    Comment,
    Ident(Seq<char>),
    Quoted(Seq<char>),
    Comma,
    Function(Seq<char>),
    Block(char),
    Other,
}

pub struct CssTokenView {
    pub kind: CssKindView,
    pub css: Seq<char>,
    pub after_open: Seq<char>,
    pub after: Seq<char>,
}

pub open spec fn kind_view(kind: CssTokenKind) -> CssKindView {
    match kind {
        CssTokenKind::WhiteSpace => CssKindView::WhiteSpace,
        CssTokenKind::Comment => CssKindView::Comment,
        CssTokenKind::Ident(name) => CssKindView::Ident(name@),
        CssTokenKind::Quoted(value) => CssKindView::Quoted(value@),
        CssTokenKind::Comma => CssKindView::Comma,
        CssTokenKind::Function(name) => CssKindView::Function(name@),
        CssTokenKind::Block(close) => CssKindView::Block(close),
        CssTokenKind::Other => CssKindView::Other,
    }
}

pub open spec fn token_view(token: CssToken) -> CssTokenView {
    CssTokenView {
        kind: kind_view(token.kind),
        css: token.css@,
        after_open: token.after_open@,
        after: token.after@,
    }
}

/// What `cssparser::Parser::next_including_whitespace_and_comments` reads first
/// from `source`: the token's kind, its CSS serialisation and the text after
/// it; `None` at the end of the input.
pub uninterp spec fn spec_css_next(source: Seq<char>) -> Option<(CssKindView, Seq<char>, Seq<char>)>;

/// The text after the block that `opener` opens, where `inner` follows the
/// opener, as `cssparser::Parser::parse_nested_block` leaves the parser.
pub uninterp spec fn spec_css_block_rest(opener: char, inner: Seq<char>) -> Seq<char>;

/// The character that opens the block a token opens, if it opens one.
pub open spec fn opener_of(kind: CssKindView) -> Option<char> {
    match kind {
        CssKindView::Function(_) => Some('('),
        CssKindView::Block(close) => if close == ')' {
            Some('(')
        } else if close == ']' {
            Some('[')
        } else {
            Some('{')
        },
        _ => None,
    }
}

/// The first component of `source`: its token, the token's serialisation, the
/// text after the token and the text after the whole component (after the
/// block that a function or bracket token opens).
pub open spec fn spec_css_first_token(source: Seq<char>) -> Option<CssTokenView> {
    match spec_css_next(source) {
        None => None,
        Some((kind, css, rest)) => Some(
            CssTokenView {
                kind,
                css,
                after_open: rest,
                after: match opener_of(kind) {
                    Some(opener) => spec_css_block_rest(opener, rest),
                    None => rest,
                },
            },
        ),
    }
}

/// Calls `cssparser::Parser::next_including_whitespace_and_comments` on
/// `source`, and `ToCss::to_css_string` on the token. Claimed: the kind, the
/// serialisation and the rest are named by [`spec_css_next`]; a token takes at
/// least one character and the rest is shorter than `source`.
#[verifier::external_body]
fn css_next(source: &str) -> (r: Option<(CssTokenKind, String, String)>)
    ensures
        r is None <==> spec_css_next(source@) is None,
        r matches Some((kind, css, rest)) ==> spec_css_next(source@) == Some((kind_view(kind), css@, rest@))
            && rest@.len() < source@.len(),
{
    let mut parser = cssparser::Parser::new(source);
    let token = parser.next_including_whitespace_and_comments().ok()?.clone();
    let kind = match &token {
        T::WhiteSpace(_) => K::WhiteSpace, T::Comment(_) => K::Comment, T::Comma => K::Comma,
        T::Ident(name) => K::Ident(name.to_string()), T::QuotedString(value) => K::Quoted(value.to_string()),
        T::Function(name) => K::Function(name.to_string()), T::ParenthesisBlock => K::Block(')'),
        T::SquareBracketBlock => K::Block(']'), T::CurlyBracketBlock => K::Block('}'), _ => K::Other,
    };
    Some((kind, token.to_css_string(), source[parser.position().byte_index()..].to_owned()))
}

/// Calls `cssparser::Parser::parse_nested_block` on a parser over `opener`
/// followed by `inner`, after reading the opener's block token. Claimed: the
/// text after the block is named by [`spec_css_block_rest`] and is no longer
/// than `inner`.
#[verifier::external_body]
fn css_block_rest(opener: char, inner: &str) -> (r: String)
    requires
        opener == '(' || opener == '[' || opener == '{',
    ensures
        r@ == spec_css_block_rest(opener, inner@),
        r@.len() <= inner@.len(),
{
    let text = format!("{opener}{inner}");
    let mut parser = cssparser::Parser::new(&text);
    let _ = parser.next_including_whitespace_and_comments();
    let _ = parser.parse_nested_block(|_| Ok::<(), ParseError<()>>(()));
    text[parser.position().byte_index()..].to_owned()
}

/// The first component of `source`; its texts are suffixes of `source`, and
/// it takes at least one character.
fn css_first_token(source: &str) -> (r: Option<CssToken>)
    ensures
        match r {
            Some(token) => spec_css_first_token(source@) == Some(token_view(token)),
            None => spec_css_first_token(source@) is None,
        },
        r matches Some(token) ==> token.after_open@.len() < source@.len() && token.after@.len()
            <= token.after_open@.len(),
{
    match css_next(source) {
        None => None,
        Some((kind, css, rest)) => {
            let after = match &kind {
                CssTokenKind::Function(_) => css_block_rest('(', rest.as_str()),
                CssTokenKind::Block(close) => {
                    let opener = if *close == ')' {
                        '('
                    } else if *close == ']' {
                        '['
                    } else {
                        '{'
                    };
                    css_block_rest(opener, rest.as_str())
                },
                _ => rest.clone(),
            };
            Some(CssToken { kind, css, after_open: rest, after })
        },
    }
}

/// The character that closes the block a token opens, if it opens one.
pub open spec fn closing_of(kind: CssKindView) -> Option<char> {
    match kind {
        CssKindView::Function(_) => Some(')'),
        CssKindView::Block(close) => Some(close),
        _ => None,
    }
}

/// The token moves forward through its text.
pub open spec fn progresses(source: Seq<char>, token: CssTokenView) -> bool {
    token.after_open.len() < source.len() && token.after.len() <= token.after_open.len()
}

/// The text inside the block that a token opens: what lies between the token and
/// the end of the component, without the closing character.
pub open spec fn inner_text(token: CssTokenView) -> Seq<char> {
    let body = token.after_open.subrange(0, token.after_open.len() - token.after.len());
    match closing_of(token.kind) {
        Some(close) => if body.len() > 0 && body.last() == close {
            body.drop_last()
        } else {
            body
        },
        None => body,
    }
}

/// The CSS serialisation of a text's components, without comments; every block
/// is written with its closing character.
pub open spec fn serialized(source: Seq<char>) -> Seq<char>
    decreases source.len(),
{
    match spec_css_first_token(source) {
        None => Seq::empty(),
        Some(token) => if !progresses(source, token) {
            Seq::empty()
        } else {
            let head = match token.kind {
                CssKindView::Comment => Seq::empty(),
                _ => token.css + match closing_of(token.kind) {
                    Some(close) => serialized(inner_text(token)).push(close),
                    None => Seq::empty(),
                },
            };
            head + serialized(token.after)
        },
    }
}

/// `source` without its leading white space and comments.
pub open spec fn skip_blank(source: Seq<char>) -> Seq<char>
    decreases source.len(),
{
    match spec_css_first_token(source) {
        Some(token) => if progresses(source, token) && (token.kind is WhiteSpace
            || token.kind is Comment) {
            skip_blank(token.after)
        } else {
            source
        },
        None => source,
    }
}

/// The arguments of `var(...)`: a custom property name, then either nothing or a
/// comma and a fallback (serialised and trimmed); `None` for anything else.
pub open spec fn var_arguments(inner: Seq<char>) -> Option<(Seq<char>, Option<Seq<char>>)> {
    let a = skip_blank(inner);
    match spec_css_first_token(a) {
        Some(token) => match token.kind {
            CssKindView::Ident(name) => if progresses(a, token) && starts_with(name, "--"@) {
                let b = skip_blank(token.after);
                match spec_css_first_token(b) {
                    None => Some((name, None)),
                    Some(next) => if progresses(b, next) && next.kind is Comma {
                        Some((name, Some(trim(serialized(next.after)))))
                    } else {
                        None
                    },
                }
            } else {
                None
            },
            _ => None,
        },
        None => None,
    }
}

/// The value of the first custom property called `name`.
pub open spec fn property_value(properties: Seq<(Seq<char>, Seq<char>)>, name: Seq<char>) -> Option<
    Seq<char>,
>
    decreases properties.len(),
{
    if properties.len() == 0 {
        None
    } else if properties[0].0 == name {
        Some(properties[0].1)
    } else {
        property_value(properties.drop_first(), name)
    }
}

/// The longest value, in UTF-8 bytes, that a substitution may produce.
pub const MAX_RESOLVED_BYTES: usize = 65536;

/// The deepest nesting of substitutions.
pub const MAX_RESOLUTION_DEPTH: u8 = 16;

/// `value` with its `var()` references substituted, at nesting `depth`: none past
/// the depth limit or past the size limit.
pub open spec fn resolve_value(
    value: Seq<char>,
    properties: Seq<(Seq<char>, Seq<char>)>,
    stack: Seq<Seq<char>>,
    depth: int,
) -> Option<Seq<char>>
    decreases 16 - depth, 2int, 0int,
{
    if !(0 <= depth < 16) {
        None
    } else {
        match resolve_text(value, properties, stack, depth) {
            Some(out) => if utf8_len(out) <= MAX_RESOLVED_BYTES {
                Some(out)
            } else {
                None
            },
            None => None,
        }
    }
}

/// The components of `source` written out with their `var()` references
/// substituted; `None` when a reference cannot be resolved.
pub open spec fn resolve_text(
    source: Seq<char>,
    properties: Seq<(Seq<char>, Seq<char>)>,
    stack: Seq<Seq<char>>,
    depth: int,
) -> Option<Seq<char>>
    decreases 16 - depth, 1int, source.len(),
{
    if !(0 <= depth < 16) {
        None
    } else {
        match spec_css_first_token(source) {
            None => Some(Seq::empty()),
            Some(token) => if !progresses(source, token) {
                Some(Seq::empty())
            } else {
                let piece = match token.kind {
                    CssKindView::Function(name) => if ascii_lower(name) == "var"@ {
                        resolve_var(inner_text(token), properties, stack, depth)
                    } else {
                        match resolve_text(inner_text(token), properties, stack, depth) {
                            Some(inside) => Some(token.css + inside.push(')')),
                            None => None,
                        }
                    },
                    CssKindView::Block(close) => match resolve_text(
                        inner_text(token),
                        properties,
                        stack,
                        depth,
                    ) {
                        Some(inside) => Some(token.css + inside.push(close)),
                        None => None,
                    },
                    CssKindView::Comment => Some(Seq::empty()),
                    _ => Some(token.css),
                };
                match piece {
                    Some(p) => match resolve_text(token.after, properties, stack, depth) {
                        Some(rest) => Some(p + rest),
                        None => None,
                    },
                    None => None,
                }
            },
        }
    }
}

/// What `var(inner)` stands for: a property on the resolution stack (a cycle)
/// takes its fallback; else the property's value, if it resolves; else the fallback.
pub open spec fn resolve_var(
    inner: Seq<char>,
    properties: Seq<(Seq<char>, Seq<char>)>,
    stack: Seq<Seq<char>>,
    depth: int,
) -> Option<Seq<char>>
    decreases 16 - depth, 1int, inner.len(),
{
    if !(0 <= depth < 16) {
        None
    } else {
        match var_arguments(inner) {
            None => None,
            Some((name, fallback)) => {
                let from_fallback = match fallback {
                    Some(text) => resolve_value(text, properties, stack, depth + 1),
                    None => None,
                };
                if stack.contains(name) {
                    from_fallback
                } else {
                    let from_property = match property_value(properties, name) {
                        Some(value) => resolve_value(value, properties, stack.push(name), depth + 1),
                        None => None,
                    };
                    match from_property {
                        Some(resolved) => Some(resolved),
                        None => from_fallback,
                    }
                }
            },
        }
    }
}

pub open spec fn properties_view(properties: Seq<(String, String)>) -> Seq<(Seq<char>, Seq<char>)> {
    properties.map_values(|p: (String, String)| (p.0@, p.1@))
}

pub open spec fn stack_view(stack: Seq<String>) -> Seq<Seq<char>> {
    stack.map_values(|s: String| s@)
}

/// The text inside the block that `token` opens.
fn block_inner(token: &CssToken) -> (r: String)
    requires
        token.after@.len() <= token.after_open@.len(),
    ensures
        r@ == inner_text(token_view(*token)),
        r@.len() <= token.after_open@.len(),
{
    let chars = crate::text::chars_of(token.after_open.as_str());
    let after = crate::text::chars_of(token.after.as_str());
    let mut end = chars.len() - after.len();
    let close: Option<char> = match &token.kind {
        CssTokenKind::Function(_) => Some(')'),
        CssTokenKind::Block(close) => Some(*close),
        _ => None,
    };
    match close {
        Some(c) => {
            if end > 0 && chars[end - 1] == c {
                end = end - 1;
            }
        },
        None => {},
    }
    let mut out = String::new();
    let mut i: usize = 0;
    while i < end
        invariant
            i <= end,
            end <= chars.len(),
            out@ == chars@.subrange(0, i as int),
        decreases end - i,
    {
        push_char(&mut out, chars[i]);
        proof {
            assert(out@ =~= chars@.subrange(0, i + 1));
        }
        i = i + 1;
    }
    proof {
        let body = token.after_open@.subrange(0, token.after_open@.len() - token.after@.len());
        assert(body.len() == chars@.len() - after@.len());
        if body.len() > 0 {
            assert(body.last() == chars@[chars@.len() - after@.len() - 1]);
            assert(body.drop_last() =~= chars@.subrange(0, chars@.len() - after@.len() - 1));
        }
        assert(out@ =~= inner_text(token_view(*token)));
    }
    out
}

/// Appends the serialisation of `source`'s components to `out`.
fn serialize_into(source: &str, out: &mut String)
    ensures
        final(out)@ == old(out)@ + serialized(source@),
    decreases source@.len(),
{
    let mut rest = String::from_str(source);
    let ghost start = out@;
    loop
        invariant
            rest@.len() <= source@.len(),
            old(out)@ + serialized(source@) == out@ + serialized(rest@),
        ensures
            out@ == old(out)@ + serialized(source@),
        decreases rest@.len(),
    {
        let token = match css_first_token(rest.as_str()) {
            Some(token) => token,
            None => {
                proof {
                    assert(out@ + Seq::<char>::empty() =~= out@);
                }
                break;
            },
        };
        let ghost before = out@;
        let ghost current = rest@;
        match &token.kind {
            CssTokenKind::Comment => {},
            _ => {
                out.append(token.css.as_str());
                match &token.kind {
                    CssTokenKind::Function(_) | CssTokenKind::Block(_) => {
                        let inner = block_inner(&token);
                        proof {
                            assert(inner@.len() < source@.len());
                        }
                        serialize_into(inner.as_str(), out);
                        let close = match &token.kind {
                            CssTokenKind::Block(c) => *c,
                            _ => ')',
                        };
                        push_char(out, close);
                    },
                    _ => {},
                }
            },
        }
        proof {
            assert(out@ + serialized(token.after@) =~= before + serialized(current));
        }
        rest = token.after;
    }
}

/// `source` without its leading white space and comments.
fn skip_blank_text(source: &str) -> (r: String)
    ensures
        r@ == skip_blank(source@),
{
    let mut rest = String::from_str(source);
    loop
        invariant
            skip_blank(source@) == skip_blank(rest@),
        decreases rest@.len(),
    {
        let token = match css_first_token(rest.as_str()) {
            Some(token) => token,
            None => {
                return rest;
            },
        };
        match &token.kind {
            CssTokenKind::WhiteSpace | CssTokenKind::Comment => {
                rest = token.after;
            },
            _ => {
                return rest;
            },
        }
    }
}

/// The arguments of `var(inner)`: the property name and the optional fallback.
fn parse_var_arguments(inner: &str) -> (r: Option<(String, Option<String>)>)
    ensures
        match r {
            Some((name, fallback)) => var_arguments(inner@) == Some(
                (
                    name@,
                    match fallback {
                        Some(f) => Some(f@),
                        None => None::<Seq<char>>,
                    },
                ),
            ),
            None => var_arguments(inner@) is None,
        },
{
    let a = skip_blank_text(inner);
    let token = match css_first_token(a.as_str()) {
        Some(token) => token,
        None => {
            return None;
        },
    };
    let name = match &token.kind {
        CssTokenKind::Ident(name) => name.clone(),
        _ => {
            return None;
        },
    };
    if !str_starts_with(name.as_str(), "--") {
        return None;
    }
    let b = skip_blank_text(token.after.as_str());
    match css_first_token(b.as_str()) {
        None => Some((name, None)),
        Some(next) => match &next.kind {
            CssTokenKind::Comma => {
                let mut fallback = String::new();
                serialize_into(next.after.as_str(), &mut fallback);
                let fallback = trimmed(fallback.as_str());
                Some((name, Some(fallback)))
            },
            _ => None,
        },
    }
}

fn property_lookup<'a>(properties: &'a Vec<(String, String)>, name: &str) -> (r: Option<&'a String>)
    ensures
        match r {
            Some(value) => property_value(properties_view(properties@), name@) == Some(value@),
            None => property_value(properties_view(properties@), name@) is None,
        },
{
    let ghost all = properties_view(properties@);
    proof {
        assert(all.subrange(0, all.len() as int) =~= all);
    }
    let mut i: usize = 0;
    while i < properties.len()
        invariant
            i <= properties.len(),
            all == properties_view(properties@),
            property_value(all, name@) == property_value(all.subrange(i as int, all.len() as int), name@),
        decreases properties.len() - i,
    {
        proof {
            let rest = all.subrange(i as int, all.len() as int);
            assert(rest.drop_first() =~= all.subrange(i + 1, all.len() as int));
            assert(rest[0] == (properties@[i as int].0@, properties@[i as int].1@));
        }
        if str_eq(properties[i].0.as_str(), name) {
            return Some(&properties[i].1);
        }
        i = i + 1;
    }
    None
}

fn stack_contains(stack: &Vec<String>, name: &str) -> (r: bool)
    ensures
        r == stack_view(stack@).contains(name@),
{
    let mut i: usize = 0;
    while i < stack.len()
        invariant
            i <= stack.len(),
            forall|j: int| 0 <= j < i ==> stack@[j]@ != name@,
        decreases stack.len() - i,
    {
        if str_eq(stack[i].as_str(), name) {
            proof {
                assert(stack_view(stack@)[i as int] == name@);
            }
            return true;
        }
        i = i + 1;
    }
    proof {
        if stack_view(stack@).contains(name@) {
            let j = choose|j: int| 0 <= j < stack_view(stack@).len() && stack_view(stack@)[j] == name@;
            assert(stack_view(stack@)[j] == stack@[j]@);
        }
    }
    false
}

/// `value` with its references substituted at nesting `depth`.
fn resolve_variable_value(
    value: &str,
    properties: &Vec<(String, String)>,
    stack: &mut Vec<String>,
    depth: u8,
) -> (r: Option<String>)
    ensures
        stack_view(final(stack)@) == stack_view(old(stack)@),
        match r {
            Some(out) => resolve_value(value@, properties_view(properties@), stack_view(old(stack)@), depth as int)
                == Some(out@),
            None => resolve_value(value@, properties_view(properties@), stack_view(old(stack)@), depth as int) is None,
        },
    decreases 16 - depth, 2int, 0int,
{
    if depth >= MAX_RESOLUTION_DEPTH {
        return None;
    }
    let mut output = String::new();
    match resolve_components(value, &mut output, properties, stack, depth) {
        Ok(()) => {},
        Err(()) => {
            return None;
        },
    }
    proof {
        assert(output@ =~= Seq::<char>::empty() + output@);
    }
    if output.as_str().as_bytes().len() <= MAX_RESOLVED_BYTES {
        Some(output)
    } else {
        None
    }
}

/// Appends `source` with its references substituted to `out`; `Err` when a
/// reference cannot be resolved.
fn resolve_components(
    source: &str,
    out: &mut String,
    properties: &Vec<(String, String)>,
    stack: &mut Vec<String>,
    depth: u8,
) -> (r: Result<(), ()>)
    requires
        depth < 16,
    ensures
        stack_view(final(stack)@) == stack_view(old(stack)@),
        match resolve_text(source@, properties_view(properties@), stack_view(old(stack)@), depth as int) {
            Some(text) => r is Ok && final(out)@ == old(out)@ + text,
            None => r is Err,
        },
    decreases 16 - depth, 1int, source@.len(),
{
    let ghost props = properties_view(properties@);
    let ghost frames = stack_view(stack@);
    let ghost mut done: Seq<char> = Seq::empty();
    let mut rest = String::from_str(source);
    proof {
        assert(old(out)@ + done =~= old(out)@);
        assert(resolve_text(source@, props, frames, depth as int) == match resolve_text(rest@, props, frames, depth as int) {
            Some(more) => Some(done + more),
            None => None::<Seq<char>>,
        }) by {
            match resolve_text(rest@, props, frames, depth as int) {
                Some(more) => {
                    assert(done + more =~= more);
                },
                None => {},
            }
        }
    }
    loop
        invariant
            depth < 16,
            props == properties_view(properties@),
            stack_view(stack@) == frames,
            frames == stack_view(old(stack)@),
            out@ == old(out)@ + done,
            rest@.len() <= source@.len(),
            resolve_text(source@, props, frames, depth as int) == match resolve_text(rest@, props, frames, depth as int) {
                Some(more) => Some(done + more),
                None => None::<Seq<char>>,
            },
        decreases rest@.len(),
    {
        let ghost current = rest@;
        let ghost before = out@;
        let token = match css_first_token(rest.as_str()) {
            Some(token) => token,
            None => {
                proof {
                    assert(resolve_text(current, props, frames, depth as int) == Some(Seq::<char>::empty()));
                    assert(done + Seq::<char>::empty() =~= done);
                }
                return Ok(());
            },
        };
        let ghost t = token_view(token);
        let piece: Result<(), ()> = match &token.kind {
            CssTokenKind::Function(name) => {
                let lower = ascii_lowercase(name.as_str());
                if str_eq(lower.as_str(), "var") {
                    let inner = block_inner(&token);
                    match resolve_var_reference(inner.as_str(), properties, stack, depth) {
                        Some(value) => {
                            out.append(value.as_str());
                            Ok(())
                        },
                        None => Err(()),
                    }
                } else {
                    out.append(token.css.as_str());
                    let inner = block_inner(&token);
                    match resolve_components(inner.as_str(), out, properties, stack, depth) {
                        Ok(()) => {
                            push_char(out, ')');
                            Ok(())
                        },
                        Err(()) => Err(()),
                    }
                }
            },
            CssTokenKind::Block(close) => {
                let close = *close;
                out.append(token.css.as_str());
                let inner = block_inner(&token);
                match resolve_components(inner.as_str(), out, properties, stack, depth) {
                    Ok(()) => {
                        push_char(out, close);
                        Ok(())
                    },
                    Err(()) => Err(()),
                }
            },
            CssTokenKind::Comment => Ok(()),
            _ => {
                out.append(token.css.as_str());
                Ok(())
            },
        };
        let ghost piece_spec: Option<Seq<char>> = match t.kind {
            CssKindView::Function(name) => if ascii_lower(name) == "var"@ {
                resolve_var(inner_text(t), props, frames, depth as int)
            } else {
                match resolve_text(inner_text(t), props, frames, depth as int) {
                    Some(inside) => Some(t.css + inside.push(')')),
                    None => None,
                }
            },
            CssKindView::Block(close) => match resolve_text(inner_text(t), props, frames, depth as int) {
                Some(inside) => Some(t.css + inside.push(close)),
                None => None,
            },
            CssKindView::Comment => Some(Seq::empty()),
            _ => Some(t.css),
        };
        proof {
            assert(match piece_spec {
                Some(p) => piece is Ok && out@ =~= before + p,
                None => piece is Err,
            });
            assert(resolve_text(current, props, frames, depth as int) == match piece_spec {
                Some(p) => match resolve_text(t.after, props, frames, depth as int) {
                    Some(q) => Some(p + q),
                    None => None,
                },
                None => None,
            });
        }
        match piece {
            Ok(()) => {},
            Err(()) => {
                return Err(());
            },
        }
        proof {
            let p = piece_spec->0;
            let previous = done;
            done = previous + p;
            assert(out@ =~= old(out)@ + done);
            match resolve_text(t.after, props, frames, depth as int) {
                Some(q) => {
                    assert(previous + (p + q) =~= done + q);
                },
                None => {},
            }
        }
        rest = token.after;
    }
}

/// What `var(inner)` stands for, at nesting `depth`.
fn resolve_var_reference(
    inner: &str,
    properties: &Vec<(String, String)>,
    stack: &mut Vec<String>,
    depth: u8,
) -> (r: Option<String>)
    requires
        depth < 16,
    ensures
        stack_view(final(stack)@) == stack_view(old(stack)@),
        match r {
            Some(out) => resolve_var(inner@, properties_view(properties@), stack_view(old(stack)@), depth as int)
                == Some(out@),
            None => resolve_var(inner@, properties_view(properties@), stack_view(old(stack)@), depth as int) is None,
        },
    decreases 16 - depth, 1int, inner@.len(),
{
    let (name, fallback) = match parse_var_arguments(inner) {
        Some(parsed) => parsed,
        None => {
            return None;
        },
    };
    if stack_contains(stack, name.as_str()) {
        return match &fallback {
            Some(text) => resolve_variable_value(text.as_str(), properties, stack, depth + 1),
            None => None,
        };
    }
    match property_lookup(properties, name.as_str()) {
        Some(value) => {
            let ghost frames = stack_view(stack@);
            let ghost original = stack@;
            stack.push(name);
            proof {
                assert(stack_view(stack@) =~= frames.push(name@));
            }
            let resolved = resolve_variable_value(value.as_str(), properties, stack, depth + 1);
            let ghost pushed = stack@;
            let _ = stack.pop();
            proof {
                assert(stack_view(pushed) == frames.push(name@));
                assert(stack@ =~= pushed.drop_last());
                assert(stack_view(stack@) =~= stack_view(pushed).drop_last());
                assert(stack_view(stack@) =~= frames);
            }
            match resolved {
                Some(resolved) => {
                    return Some(resolved);
                },
                None => {},
            }
        },
        None => {},
    }
    match &fallback {
        Some(text) => resolve_variable_value(text.as_str(), properties, stack, depth + 1),
        None => None,
    }
}

/// `value` with every `var(--name)` and `var(--name, fallback)` replaced by the
/// custom property's resolved value, or by the fallback when the property is
/// missing, unresolvable or refers back to itself; `None` when a reference
/// stays unresolved, nesting passes 16 levels, or the result passes 64 KiB.
pub fn resolve_variables(value: &str, custom_properties: &Vec<(String, String)>) -> (r: Option<String>)
    ensures
        match r {
            Some(out) => resolve_value(value@, properties_view(custom_properties@), Seq::empty(), 0) == Some(out@),
            None => resolve_value(value@, properties_view(custom_properties@), Seq::empty(), 0) is None,
        },
{
    let mut stack: Vec<String> = Vec::new();
    proof {
        assert(stack_view(stack@) =~= Seq::<Seq<char>>::empty());
    }
    resolve_variable_value(value, custom_properties, &mut stack, 0)
}

/// Whether the style engine supports property `name`: custom properties and a
/// fixed list of standard ones.
pub open spec fn supported_property_spec(name: Seq<char>) -> bool {
    starts_with(name, "--"@) || supported_names().contains(name)
}

pub open spec fn supported_names() -> Seq<Seq<char>> {
    seq![
        "display"@, "color"@, "background-color"@, "background"@, "font-size"@, "font-family"@,
        "line-height"@, "white-space"@, "font-weight"@, "font-style"@, "text-align"@, "margin"@,
        "margin-top"@, "margin-right"@, "margin-bottom"@, "margin-left"@, "padding"@,
        "padding-top"@, "padding-right"@, "padding-bottom"@, "padding-left"@, "border"@,
        "border-width"@, "border-color"@, "border-radius"@, "box-shadow"@, "opacity"@,
        "text-decoration"@, "width"@, "height"@, "min-width"@, "max-width"@, "box-sizing"@,
        "overflow"@, "flex-direction"@, "flex-wrap"@, "justify-content"@, "align-items"@,
        "gap"@, "row-gap"@, "column-gap"@, "grid-template-columns"@, "flex-grow"@,
        "flex-shrink"@, "flex-basis"@, "order"@, "position"@, "top"@, "right"@, "bottom"@,
        "left"@, "z-index"@,
    ]
}

fn supported_name_list() -> (r: Vec<&'static str>)
    ensures
        r@.map_values(|s: &'static str| s@) == supported_names(),
{
    let r = vec![
        "display", "color", "background-color", "background", "font-size", "font-family",
        "line-height", "white-space", "font-weight", "font-style", "text-align", "margin",
        "margin-top", "margin-right", "margin-bottom", "margin-left", "padding",
        "padding-top", "padding-right", "padding-bottom", "padding-left", "border",
        "border-width", "border-color", "border-radius", "box-shadow", "opacity",
        "text-decoration", "width", "height", "min-width", "max-width", "box-sizing",
        "overflow", "flex-direction", "flex-wrap", "justify-content", "align-items",
        "gap", "row-gap", "column-gap", "grid-template-columns", "flex-grow",
        "flex-shrink", "flex-basis", "order", "position", "top", "right", "bottom",
        "left", "z-index",
    ];
    proof {
        assert(r@.map_values(|s: &'static str| s@) =~= supported_names());
    }
    r
}

/// Whether the style engine supports property `name`.
pub fn supported_property(name: &str) -> (r: bool)
    ensures
        r == supported_property_spec(name@),
{
    if str_starts_with(name, "--") {
        return true;
    }
    let names = supported_name_list();
    let ghost all = names@.map_values(|s: &'static str| s@);
    let mut i: usize = 0;
    while i < names.len()
        invariant
            i <= names.len(),
            all == names@.map_values(|s: &'static str| s@),
            all == supported_names(),
            forall|j: int| 0 <= j < i ==> all[j] != name@,
        decreases names.len() - i,
    {
        if str_eq(names[i], name) {
            proof {
                assert(all[i as int] == name@);
            }
            return true;
        }
        i = i + 1;
    }
    false
}

/// The kinds of the components of `source`, in order, as the tokenizer reads
/// them one after another.
pub open spec fn token_kinds(source: Seq<char>) -> Seq<CssKindView>
    decreases source.len(),
{
    match spec_css_first_token(source) {
        None => Seq::empty(),
        Some(token) => if !progresses(source, token) {
            Seq::empty()
        } else {
            seq![token.kind] + token_kinds(token.after)
        },
    }
}

/// What scanning a font-family list's token kinds up to the first comma finds:
/// the identifiers and the quoted name so far; `None` where the first family is
/// not a quoted name alone or a run of identifiers.
pub open spec fn family_scan(kinds: Seq<CssKindView>, identifiers: Seq<Seq<char>>, quoted: Option<Seq<char>>) -> Option<
    (Seq<Seq<char>>, Option<Seq<char>>),
>
    decreases kinds.len(),
{
    if kinds.len() == 0 {
        Some((identifiers, quoted))
    } else {
        let rest = kinds.drop_first();
        match kinds[0] {
            CssKindView::WhiteSpace => family_scan(rest, identifiers, quoted),
            CssKindView::Comment => family_scan(rest, identifiers, quoted),
            CssKindView::Comma => Some((identifiers, quoted)),
            CssKindView::Quoted(value) => if identifiers.len() == 0 && quoted is None {
                family_scan(rest, identifiers, Some(value))
            } else {
                None
            },
            CssKindView::Ident(name) => if quoted is None {
                family_scan(rest, identifiers.push(name), quoted)
            } else {
                None
            },
            _ => None,
        }
    }
}

/// Words joined by single spaces.
pub open spec fn space_joined(words: Seq<Seq<char>>) -> Seq<char>
    decreases words.len(),
{
    if words.len() == 0 {
        Seq::empty()
    } else if words.len() == 1 {
        words[0]
    } else {
        space_joined(words.drop_last()) + seq![' '] + words.last()
    }
}

/// The first family of a `font-family` value given its token kinds: a quoted
/// name, or identifiers joined by spaces; nothing for anything else or an empty
/// name.
pub open spec fn family_of_kinds(kinds: Seq<CssKindView>) -> Option<Seq<char>> {
    match family_scan(kinds, Seq::empty(), None) {
        None => None,
        Some((identifiers, quoted)) => {
            let family = match quoted {
                Some(name) => Some(name),
                None => if identifiers.len() > 0 {
                    Some(space_joined(identifiers))
                } else {
                    None
                },
            };
            match family {
                Some(name) => if name.len() > 0 {
                    Some(name)
                } else {
                    None
                },
                None => None,
            }
        },
    }
}

/// The first family of a `font-family` value.
pub open spec fn first_family(value: Seq<char>) -> Option<Seq<char>> {
    family_of_kinds(token_kinds(value))
}

/// The first family of a `font-family` value whose tokens have the kinds
/// `kinds`, in order.
pub fn first_family_of_tokens(kinds: &Vec<CssTokenKind>) -> (r: Option<String>)
    ensures
        opt_view(r) == family_of_kinds(kinds@.map_values(|k: CssTokenKind| kind_view(k))),
{
    let ghost all = kinds@.map_values(|k: CssTokenKind| kind_view(k));
    let mut identifiers: Vec<String> = Vec::new();
    let mut quoted: Option<String> = None;
    let mut i: usize = 0;
    proof {
        assert(identifiers@.map_values(|s: String| s@) =~= Seq::<Seq<char>>::empty());
        assert(all.subrange(0, all.len() as int) =~= all);
    }
    while i < kinds.len()
        invariant
            i <= kinds@.len(),
            all == kinds@.map_values(|k: CssTokenKind| kind_view(k)),
            family_scan(all, Seq::empty(), None) == family_scan(
                all.subrange(i as int, all.len() as int),
                identifiers@.map_values(|s: String| s@),
                opt_view(quoted),
            ),
        ensures
            family_scan(all, Seq::empty(), None) == Some(
                (identifiers@.map_values(|s: String| s@), opt_view(quoted)),
            ),
        decreases kinds@.len() - i,
    {
        let ghost names = identifiers@.map_values(|s: String| s@);
        proof {
            let rest = all.subrange(i as int, all.len() as int);
            assert(rest[0] == kind_view(kinds@[i as int]));
            assert(rest.drop_first() =~= all.subrange(i + 1, all.len() as int));
        }
        match &kinds[i] {
            CssTokenKind::WhiteSpace | CssTokenKind::Comment => {},
            CssTokenKind::Comma => {
                break;
            },
            CssTokenKind::Quoted(text) => {
                if identifiers.len() == 0 && quoted.is_none() {
                    quoted = Some(text.clone());
                } else {
                    return None;
                }
            },
            CssTokenKind::Ident(name) => {
                if quoted.is_none() {
                    identifiers.push(name.clone());
                    proof {
                        assert(identifiers@.map_values(|s: String| s@) =~= names.push(identifiers@.last()@));
                    }
                } else {
                    return None;
                }
            },
            _ => {
                return None;
            },
        }
        i = i + 1;
    }
    proof {
        if i == kinds.len() {
            assert(all.subrange(i as int, all.len() as int) =~= Seq::<CssKindView>::empty());
        }
    }
    let family = match quoted {
        Some(name) => Some(name),
        None => {
            if identifiers.len() > 0 {
                let mut joined = identifiers[0].clone();
                let mut i: usize = 1;
                proof {
                    let all = identifiers@.map_values(|s: String| s@);
                    assert(all.subrange(0, 1) =~= seq![all[0]]);
                }
                while i < identifiers.len()
                    invariant
                        1 <= i <= identifiers@.len(),
                        joined@ == space_joined(identifiers@.map_values(|s: String| s@).subrange(0, i as int)),
                    decreases identifiers@.len() - i,
                {
                    push_char(&mut joined, ' ');
                    joined.append(identifiers[i].as_str());
                    i = i + 1;
                    proof {
                        let all = identifiers@.map_values(|s: String| s@);
                        assert(all.subrange(0, i as int).drop_last() =~= all.subrange(0, i - 1));
                    }
                }
                proof {
                    let all = identifiers@.map_values(|s: String| s@);
                    assert(all.subrange(0, identifiers@.len() as int) =~= all);
                    assert(all.subrange(0, 1) =~= seq![all[0]]);
                }
                Some(joined)
            } else {
                None
            }
        },
    };
    match family {
        Some(name) => {
            if chars_of(name.as_str()).len() > 0 {
                Some(name)
            } else {
                None
            }
        },
        None => None,
    }
}

/// The first family of a `font-family` value.
pub fn first_font_family(value: &str) -> (r: Option<String>)
    ensures
        opt_view(r) == first_family(value@),
{
    let mut rest = String::from_str(value);
    let mut kinds: Vec<CssTokenKind> = Vec::new();
    proof {
        assert(kinds@.map_values(|k: CssTokenKind| kind_view(k)) =~= Seq::<CssKindView>::empty());
        assert(token_kinds(value@) =~= Seq::<CssKindView>::empty() + token_kinds(rest@));
    }
    loop
        invariant
            token_kinds(value@) == kinds@.map_values(|k: CssTokenKind| kind_view(k)) + token_kinds(rest@),
        ensures
            token_kinds(value@) == kinds@.map_values(|k: CssTokenKind| kind_view(k)),
        decreases rest@.len(),
    {
        let ghost before = kinds@.map_values(|k: CssTokenKind| kind_view(k));
        let ghost source = rest@;
        match css_first_token(rest.as_str()) {
            None => {
                proof {
                    assert(token_kinds(source) =~= Seq::<CssKindView>::empty());
                    assert(before + token_kinds(source) =~= before);
                }
                break;
            },
            Some(token) => {
                let ghost k = kind_view(token.kind);
                let ghost after = token.after@;
                proof {
                    assert(token_kinds(source) == seq![k] + token_kinds(after));
                }
                kinds.push(token.kind);
                rest = token.after;
                proof {
                    assert(kinds@.map_values(|k: CssTokenKind| kind_view(k)) =~= before.push(k));
                    assert(before + (seq![k] + token_kinds(after)) =~= before.push(k) + token_kinds(after));
                }
            },
        }
    }
    first_family_of_tokens(&kinds)
}

} // verus!
