use vstd::prelude::*;
use crate::model::{Kind, NodeView};
use crate::rule::Rule;
use crate::error::syntax_message;
use crate::span::{Span, span_chars};

verus! {

pub open spec fn is_digit(c: u8) -> bool {
    48 <= c <= 57
}

/// The value of a run of decimal digits.
pub open spec fn decimal_value(d: Seq<u8>) -> nat
    decreases d.len(),
{
    if d.len() == 0 {
        0
    } else {
        decimal_value(d.drop_last()) * 10 + (d.last() - 48) as nat
    }
}

/// What reading `t` as a `u32` gives: an optional `+`, then one or more decimal digits whose
/// value fits in 32 bits.
pub open spec fn parsed_u32(t: Seq<u8>) -> Option<u32> {
    let d = if t.len() > 0 && t[0] == 43 {
        t.drop_first()
    } else {
        t
    };
    if d.len() > 0 && (forall|k: int| 0 <= k < d.len() ==> is_digit(#[trigger] d[k]))
        && decimal_value(d) <= u32::MAX {
        Some(decimal_value(d) as u32)
    } else {
        None
    }
}

/// The message of the error that reading `t` as a number gives, in std's words.
pub uninterp spec fn int_error_of(t: Seq<char>) -> Seq<char>;

pub open spec fn text_view(b: Seq<u8>, start: int, end: int) -> NodeView {
    NodeView { kind: Kind::Text, span: b.subrange(start, end), children: Seq::empty() }
}

/// `acc`, followed by a text node for `[rs, re)` when that window is not empty.
pub open spec fn flush(b: Seq<u8>, rs: int, re: int, acc: Seq<NodeView>) -> Seq<NodeView> {
    if rs != re {
        acc.push(text_view(b, rs, re))
    } else {
        acc
    }
}

pub open spec fn max_u32(a: u32, b: u32) -> u32 {
    if a >= b {
        a
    } else {
        b
    }
}

/// What building a span gives: the node, or the message of the syntax error.
pub type Built = Result<NodeView, Seq<char>>;

/// The syntax error about the span `s` that `what` describes.
pub open spec fn fail<T>(b: Seq<u8>, s: Span, what: Seq<char>) -> Result<T, Seq<char>> {
    Err(syntax_message(what, b, s.start as int, s.end as int))
}

/// The children built from the sub-spans `cs[i..]`, given the plaintext window `[rs, re)`
/// and the children `acc` built so far; the error of the first sub-span that cannot be
/// built, unchanged.
///
/// Plaintext sub-spans only widen the window (a sub-span that starts past its end opens a
/// fresh one); any other sub-span first closes the window into a text node, then is built
/// itself, and the window restarts at its end.
#[verifier::opaque]
pub open spec fn coalesce(
    b: Seq<u8>,
    cs: Seq<Span>,
    i: int,
    rs: int,
    re: int,
    acc: Seq<NodeView>,
) -> Result<Seq<NodeView>, Seq<char>>
    decreases cs, cs.len() - i,
{
    if i < 0 || i >= cs.len() {
        Ok(flush(b, rs, re, acc))
    } else if cs[i].rule.plaintext() {
        let rs2 = if cs[i].start > re {
            cs[i].start as int
        } else {
            rs
        };
        coalesce(b, cs, i + 1, rs2, cs[i].end as int, acc)
    } else {
        match build(b, cs[i]) {
            Ok(n) => coalesce(
                b,
                cs,
                i + 1,
                cs[i].end as int,
                cs[i].end as int,
                flush(b, rs, re, acc).push(n),
            ),
            Err(m) => Err(m),
        }
    }
}

/// One step of `coalesce`.
pub proof fn lemma_coalesce_unfold(
    b: Seq<u8>,
    cs: Seq<Span>,
    i: int,
    rs: int,
    re: int,
    acc: Seq<NodeView>,
)
    ensures
        (i < 0 || i >= cs.len()) ==> coalesce(b, cs, i, rs, re, acc) == Ok::<
            Seq<NodeView>,
            Seq<char>,
        >(flush(b, rs, re, acc)),
        0 <= i < cs.len() && cs[i].rule.plaintext() ==> coalesce(b, cs, i, rs, re, acc)
            == coalesce(
            b,
            cs,
            i + 1,
            if cs[i].start > re {
                cs[i].start as int
            } else {
                rs
            },
            cs[i].end as int,
            acc,
        ),
        0 <= i < cs.len() && !cs[i].rule.plaintext() ==> coalesce(b, cs, i, rs, re, acc)
            == match build(b, cs[i]) {
            Ok(n) => coalesce(
                b,
                cs,
                i + 1,
                cs[i].end as int,
                cs[i].end as int,
                flush(b, rs, re, acc).push(n),
            ),
            Err(m) => Err(m),
        },
{
    reveal_with_fuel(coalesce, 1);
    reveal(build);
}

/// The children of a container span built from its sub-spans from the `from`-th on.
pub open spec fn children_of(b: Seq<u8>, s: Span, from: int) -> Result<Seq<NodeView>, Seq<char>>
    decreases s, 1int,
{
    coalesce(b, s.inner@, from, s.start as int, s.start as int, Seq::empty())
}

pub open spec fn container(b: Seq<u8>, s: Span, kind: Kind, from: int) -> Built
    decreases s, 2int,
{
    match children_of(b, s, from) {
        Ok(cs) => Ok(NodeView { kind, span: s.text(b), children: cs }),
        Err(m) => Err(m),
    }
}

pub open spec fn with_index(n: NodeView, index: u32) -> NodeView {
    NodeView { kind: Kind::ListItem { index }, ..n }
}

/// A list item gets the greater of its own index and `prev + 1`, which the next item must
/// then pass; other nodes are kept as they are. `None` when `prev + 1` passes `u32::MAX`.
pub open spec fn renumber_step(n: NodeView, prev: u32) -> Option<(NodeView, u32)> {
    match n.kind {
        Kind::ListItem { index } => if prev == u32::MAX {
            None
        } else {
            let idx = max_u32(index, (prev + 1) as u32);
            Some((with_index(n, idx), idx))
        },
        _ => Some((n, prev)),
    }
}

/// Renumbers the list items among `items[i..]`, after the children `acc` and an item
/// numbered `prev` (0 before the first); `None` when a number passes `u32::MAX`.
#[verifier::opaque]
pub open spec fn renumber(items: Seq<NodeView>, i: int, prev: u32, acc: Seq<NodeView>) -> Option<
    Seq<NodeView>,
>
    decreases items.len() - i,
{
    if i < 0 || i >= items.len() {
        Some(acc)
    } else {
        match renumber_step(items[i], prev) {
            Some((m, p)) => renumber(items, i + 1, p, acc.push(m)),
            None => None,
        }
    }
}

/// One step of `renumber`.
pub proof fn lemma_renumber_unfold(items: Seq<NodeView>, i: int, prev: u32, acc: Seq<NodeView>)
    ensures
        (i < 0 || i >= items.len()) ==> renumber(items, i, prev, acc) == Some(acc),
        0 <= i < items.len() ==> renumber(items, i, prev, acc) == match renumber_step(
            items[i],
            prev,
        ) {
            Some((m, p)) => renumber(items, i + 1, p, acc.push(m)),
            None => None,
        },
{
    reveal_with_fuel(renumber, 1);
}

/// The index of the first list item among `items[i..]`, or 1 when there is none.
pub open spec fn first_index(items: Seq<NodeView>, i: int) -> u32
    decreases items.len() - i,
{
    if i < 0 || i >= items.len() {
        1
    } else {
        match items[i].kind {
            Kind::ListItem { index } => index,
            _ => first_index(items, i + 1),
        }
    }
}

/// A list: its tag tells whether it is ordered, its one sub-span whether it is tight, and
/// its items are renumbered to increase.
pub open spec fn list(b: Seq<u8>, s: Span) -> Built
    decreases s, 3int,
{
    if !(s.rule == Rule::BulletList || s.rule == Rule::OrderedList) {
        fail(b, s, "Expected a list node for"@)
    } else if s.inner@.len() == 0 {
        fail(b, s, "Expected a list form in"@)
    } else {
        let form = s.inner@[0];
        if !(form.rule == Rule::ListTight || form.rule == Rule::ListLoose) {
            fail(b, s, "Expected a tight or loose list in"@)
        } else {
            match children_of(b, form, 0) {
                Err(m) => Err(m),
                Ok(items) => match renumber(items, 0, 0, Seq::empty()) {
                    None => fail(b, s, "List index out of range in"@),
                    Some(numbered) => Ok(
                        NodeView {
                            kind: Kind::List {
                                tight: form.rule == Rule::ListTight,
                                ordered: s.rule == Rule::OrderedList,
                                start: first_index(numbered, 0),
                            },
                            span: s.text(b),
                            children: numbered,
                        },
                    ),
                },
            }
        }
    }
}

/// The index that the marker `m` of the list item `s` gives: its number (at least 1), or 1
/// for a bullet.
pub open spec fn marker_index(b: Seq<u8>, s: Span, m: Span) -> Result<u32, Seq<char>> {
    if m.rule == Rule::ListIndex {
        match parsed_u32(m.text(b)) {
            Some(n) => Ok(max_u32(n, 1)),
            None => Err(int_error_of(span_chars(b, m.start as int, m.end as int))),
        }
    } else if m.rule == Rule::DashBullet || m.rule == Rule::StarBullet || m.rule
        == Rule::PlusBullet {
        Ok(1)
    } else {
        fail(b, s, "Expected a bullet or list index in"@)
    }
}

/// A list item: its marker gives its index, and the sub-spans after it its children.
pub open spec fn list_item(b: Seq<u8>, s: Span) -> Built
    decreases s, 3int,
{
    if !(s.rule == Rule::ListItem || s.rule == Rule::ListItemTight) {
        fail(b, s, "Expected a list item in"@)
    } else if s.inner@.len() == 0 {
        fail(b, s, "Expected a list marker in"@)
    } else {
        match marker_index(b, s, s.inner@[0]) {
            Err(m) => Err(m),
            Ok(index) => if s.inner@.len() < 2 {
                fail(b, s, "Expected list contents in"@)
            } else {
                container(b, s, Kind::ListItem { index }, 1)
            },
        }
    }
}

/// A heading: the length of its first sub-span is its level, the rest its title.
pub open spec fn heading(b: Seq<u8>, s: Span) -> Built
    decreases s, 3int,
{
    if s.rule != Rule::Header {
        fail(b, s, "Expected a heading in"@)
    } else if s.inner@.len() == 0 {
        fail(b, s, "No header markers found in"@)
    } else if s.inner@.len() < 2 {
        fail(b, s, "No title found in"@)
    } else {
        let level = s.inner@[0].end - s.inner@[0].start;
        if 1 <= level <= 6 {
            container(b, s, Kind::Heading { level: level as u8 }, 1)
        } else {
            fail(b, s, "Heading level out of range in"@)
        }
    }
}

/// A code block: a fenced one takes its language from a leading language token.
pub open spec fn code_block(b: Seq<u8>, s: Span) -> Built
    decreases s, 3int,
{
    if !(s.rule == Rule::FencedCodeblock || s.rule == Rule::IndentedCodeblock) {
        fail(b, s, "Expected a codeblock type in"@)
    } else if s.rule == Rule::FencedCodeblock && s.inner@.len() > 0 && s.inner@[0].rule
        == Rule::InfoStringLanguage {
        container(b, s, Kind::CodeBlock { language: Some(s.inner@[0].text(b)) }, 1)
    } else {
        container(b, s, Kind::CodeBlock { language: None }, 0)
    }
}

/// The destination of a link-family span: its second sub-span, or else the label itself.
pub open spec fn link_source(b: Seq<u8>, s: Span) -> Seq<u8> {
    if s.inner@.len() > 1 {
        s.inner@[1].text(b)
    } else {
        s.inner@[0].text(b)
    }
}

pub open spec fn link_title(b: Seq<u8>, s: Span) -> Option<Seq<u8>> {
    if s.inner@.len() > 2 {
        Some(s.inner@[2].text(b))
    } else {
        None
    }
}

/// A link or a reference definition: label, then destination and title if present.
pub open spec fn link(b: Seq<u8>, s: Span) -> Built
    decreases s, 3int,
{
    if !(s.rule == Rule::Link || s.rule == Rule::Reference) {
        fail(b, s, "Expected a link in"@)
    } else if s.inner@.len() == 0 {
        fail(b, s, "No label node found in"@)
    } else {
        let label = s.inner@[0];
        let kind = if s.rule == Rule::Reference {
            Kind::Reference {
                name: label.text(b),
                source: link_source(b, s),
                title: link_title(b, s),
            }
        } else {
            Kind::Link { source: link_source(b, s), title: link_title(b, s) }
        };
        match children_of(b, label, 0) {
            Ok(cs) => Ok(NodeView { kind, span: s.text(b), children: cs }),
            Err(m) => Err(m),
        }
    }
}

/// An image: its two sub-spans are the alternative text and the source.
pub open spec fn image(b: Seq<u8>, s: Span) -> Built {
    if s.rule != Rule::Image {
        fail(b, s, "Expected an image in"@)
    } else if s.inner@.len() == 0 {
        fail(b, s, "No label node found in"@)
    } else if s.inner@.len() < 2 {
        fail(b, s, "No source found for image in"@)
    } else {
        Ok(
            NodeView {
                kind: Kind::Image { source: s.inner@[1].text(b) },
                span: s.inner@[0].text(b),
                children: Seq::empty(),
            },
        )
    }
}

pub open spec fn leaf(b: Seq<u8>, s: Span, kind: Kind) -> NodeView {
    NodeView { kind, span: s.text(b), children: Seq::empty() }
}

/// The tags that give a text node when built on their own.
pub open spec fn text_rule(r: Rule) -> bool {
    r == Rule::Str || r == Rule::Space || r == Rule::Symbol || r == Rule::EscapedSpecialChar
        || r == Rule::Source || r == Rule::LinebreakLiteral
}

/// What building the span `s` of the input `b` gives: the node, or the syntax error's
/// message.
#[verifier::opaque]
pub open spec fn build(b: Seq<u8>, s: Span) -> Built
    decreases s, 4int,
{
    match s.rule {
        Rule::Document => container(b, s, Kind::Document, 0),
        Rule::Paragraph => container(b, s, Kind::Paragraph, 0),
        Rule::Verbatim => container(b, s, Kind::BlockQuote, 0),
        Rule::Emphasis => container(b, s, Kind::Emphasis, 0),
        Rule::Strong => container(b, s, Kind::Strong, 0),
        Rule::Label => container(b, s, Kind::Label, 0),
        Rule::Code => container(b, s, Kind::Code, 0),
        Rule::Header => heading(b, s),
        Rule::BulletList | Rule::OrderedList => list(b, s),
        Rule::ListItem | Rule::ListItemTight => list_item(b, s),
        Rule::FencedCodeblock | Rule::IndentedCodeblock => code_block(b, s),
        Rule::Link | Rule::Reference => link(b, s),
        Rule::Image => image(b, s),
        Rule::Linebreak => Ok(leaf(b, s, Kind::Linebreak)),
        Rule::NormalEndline | Rule::BlockquoteLinebreak => Ok(leaf(b, s, Kind::SoftLinebreak)),
        Rule::Eoi => Ok(NodeView { kind: Kind::Eoi, span: Seq::empty(), children: Seq::empty() }),
        _ => if text_rule(s.rule) {
            if s.start < s.end {
                Ok(leaf(b, s, Kind::Text))
            } else {
                fail(b, s, "Empty text in"@)
            }
        } else {
            fail(b, s, "Failed to find a node to represent a "@ + s.rule.spec_name())
        },
    }
}

} // verus!
