use vstd::prelude::*;
use vstd::string::{StringExecFns, StringSliceAdditionalSpecFns};
use crate::build_model::{
    Built, build, children_of, code_block, coalesce, first_index, heading, image, link,
    list, list_item, marker_index, parsed_u32, renumber, renumber_step, int_error_of,
    lemma_renumber_unfold, lemma_coalesce_unfold,
};
use crate::error::{ParseError, syntax_error};
use crate::model::{
    CodeBlock, Children, Container, Heading, Image, Leaf, Link, List, ListItem, Node,
    NodeView, Reference, views,
};
use crate::rule::Rule;
use crate::span::{Span, range_ok, slice};

verus! {

/// Relies on `str::parse::<u32>` (the `FromStr` of `u32`): an optional `+` followed by
/// decimal digits whose value fits; on failure, the message of its `ParseIntError`.
#[verifier::external_body]
fn parse_u32(t: &str) -> (r: Result<u32, String>)
    ensures
        r is Ok <==> parsed_u32(t.spec_bytes()) is Some,
        r matches Ok(n) ==> parsed_u32(t.spec_bytes()) == Some(n),
        r matches Err(m) ==> m@ == int_error_of(t@),
{
    t.parse::<u32>().map_err(|e| e.to_string())
}

/// `r` is the outcome that `expect` describes: the node with that view, or a syntax error
/// with that message.
pub open spec fn gives<'a>(r: Result<Node<'a>, ParseError>, expect: Built) -> bool {
    match expect {
        Ok(v) => r matches Ok(n) && n@ == v,
        Err(m) => r matches Err(ParseError::SyntaxError(e)) && e@ == m,
    }
}

/// `r` is a syntax error with the message `msg`.
pub open spec fn fails_with<T>(r: Result<T, ParseError>, msg: Seq<char>) -> bool {
    r matches Err(ParseError::SyntaxError(e)) && e@ == msg
}

/// `r` is the outcome that `expect` describes, for a sequence of children.
pub open spec fn gives_children<'a>(
    r: Result<Children<'a>, ParseError>,
    expect: Result<Seq<NodeView>, Seq<char>>,
) -> bool {
    match expect {
        Ok(v) => r matches Ok(c) && views(c.0@) == v,
        Err(m) => r matches Err(ParseError::SyntaxError(e)) && e@ == m,
    }
}

pub proof fn lemma_views_index<'a>(s: Seq<Node<'a>>)
    ensures
        views(s).len() == s.len(),
        forall|k: int| 0 <= k < s.len() ==> #[trigger] views(s)[k] == s[k]@,
    decreases s.len(),
{
    if s.len() > 0 {
        let t = s.subrange(0, s.len() - 1);
        lemma_views_index(t);
        assert forall|k: int| 0 <= k < s.len() implies #[trigger] views(s)[k] == s[k]@ by {
            if k < s.len() - 1 {
                assert(t[k] == s[k]);
            }
        }
    }
}

pub proof fn lemma_views_push<'a>(s: Seq<Node<'a>>, n: Node<'a>)
    ensures
        views(s.push(n)) == views(s).push(n@),
{
    lemma_views_index(s);
    lemma_views_index(s.push(n));
    assert(views(s.push(n)) =~= views(s).push(n@));
}

/// The sub-spans of `cs` from the `from`-th on are well formed, lie at or after `start`, and
/// follow one another.
pub open spec fn pairs_ok(b: Seq<u8>, cs: Seq<Span>, from: int, start: int) -> bool {
    &&& 0 <= from <= cs.len()
    &&& range_ok(b, start, start)
    &&& forall|k: int| from <= k < cs.len() ==> (#[trigger] cs[k]).wf(b) && start <= cs[k].start
    &&& forall|k: int| from < k < cs.len() ==> cs[k - 1].end <= #[trigger] cs[k].start
}

pub proof fn lemma_pairs_ok(b: Seq<u8>, s: Span, from: int)
    requires
        s.wf(b),
        0 <= from <= s.inner@.len(),
    ensures
        pairs_ok(b, s.inner@, from, s.start as int),
{
}

impl<'a> Children<'a> {
    /// Builds the children of a container from its sub-spans `pairs[from..]`, merging each run
    /// of adjacent plaintext sub-spans into one text node; `start` is where the container
    /// begins in `input`.
    pub fn try_from_pairs(input: &'a str, pairs: &Vec<Span>, from: usize, start: usize) -> (r:
        Result<Children<'a>, ParseError>)
        requires
            pairs_ok(input.spec_bytes(), pairs@, from as int, start as int),
        ensures
            gives_children(
                r,
                coalesce(
                    input.spec_bytes(),
                    pairs@,
                    from as int,
                    start as int,
                    start as int,
                    Seq::empty(),
                ),
            ),
        decreases pairs@, 0int,
    {
        let ghost b = input.spec_bytes();
        let mut rs = start;
        let mut re = start;
        let mut children: Vec<Node<'a>> = Vec::new();
        let mut i = from;
        proof {
            lemma_views_index(children@);
            assert(views(children@) =~= Seq::<NodeView>::empty());
        }
        while i < pairs.len()
            invariant
                b == input.spec_bytes(),
                pairs_ok(b, pairs@, from as int, start as int),
                from <= i <= pairs@.len(),
                rs <= re,
                range_ok(b, rs as int, re as int),
                i < pairs@.len() ==> re <= pairs@[i as int].start,
                coalesce(b, pairs@, from as int, start as int, start as int, Seq::empty())
                    == coalesce(b, pairs@, i as int, rs as int, re as int, views(children@)),
            decreases pairs@.len() - i,
        {
            let c = &pairs[i];
            assert(c.wf(b));
            proof {
                lemma_coalesce_unfold(b, pairs@, i as int, rs as int, re as int, views(children@));
            }
            if c.rule.is_plaintext() {
                if c.start > re {
                    rs = c.start;
                }
                re = c.end;
            } else {
                assert(decreases_to!(pairs@ => pairs@[i as int]));
                let node = match Node::try_from_span(input, c) {
                    Ok(n) => n,
                    Err(e) => {
                        return Err(e);
                    },
                };
                if rs != re {
                    let text = Node::Text(Leaf { literal: slice(input, rs, re) });
                    proof {
                        lemma_views_push(children@, text);
                    }
                    children.push(text);
                }
                proof {
                    lemma_views_push(children@, node);
                }
                children.push(node);
                rs = c.end;
                re = c.end;
            }
            i += 1;
        }
        proof {
            lemma_coalesce_unfold(b, pairs@, i as int, rs as int, re as int, views(children@));
        }
        if rs != re {
            let text = Node::Text(Leaf { literal: slice(input, rs, re) });
            proof {
                lemma_views_push(children@, text);
            }
            children.push(text);
        }
        Ok(Children(children))
    }
}


/// The well-formedness of a span carries over to its sub-spans.
pub proof fn lemma_inner_wf(b: Seq<u8>, s: Span, k: int)
    requires
        s.wf(b),
        0 <= k < s.inner@.len(),
    ensures
        s.inner@[k].wf(b),
        s.start <= s.inner@[k].start,
        s.inner@[k].end <= s.end,
{
}

/// Builds the container part of the span `s` from its sub-spans `s.inner[from..]`.
fn build_container<'a>(input: &'a str, s: &Span, from: usize) -> (r: Result<
    Container<'a>,
    ParseError,
>)
    requires
        s.wf(input.spec_bytes()),
        from <= s.inner@.len(),
    ensures
        gives_children(
            match r {
                Ok(c) => Ok(c.children),
                Err(e) => Err(e),
            },
            children_of(input.spec_bytes(), *s, from as int),
        ),
        r matches Ok(c) ==> c.span.spec_bytes() == s.text(input.spec_bytes()),
    decreases s, 1int,
{
    proof {
        lemma_pairs_ok(input.spec_bytes(), *s, from as int);
    }
    assert(decreases_to!(*s => s.inner@));
    let children = match Children::try_from_pairs(input, &s.inner, from, s.start) {
        Ok(c) => c,
        Err(e) => {
            return Err(e);
        },
    };
    assert(children_of(input.spec_bytes(), *s, from as int) == coalesce(
        input.spec_bytes(),
        s.inner@,
        from as int,
        s.start as int,
        s.start as int,
        Seq::empty(),
    ));
    let span = slice(input, s.start, s.end);
    assert(span.spec_bytes() == s.text(input.spec_bytes()));
    Ok(Container { children, span })
}

impl<'a> List<'a> {
    /// Gives a list item the greater of its own index and `prev + 1`; other nodes are kept.
    /// Returns the node and the index that the next item must pass.
    fn renumber_item(n: Node<'a>, prev: u32) -> (r: Option<(Node<'a>, u32)>)
        ensures
            r is None <==> renumber_step(n@, prev) is None,
            r matches Some((m, p)) ==> renumber_step(n@, prev) == Some((m@, p)),
    {
        match n {
            Node::ListItem(li) => {
                if prev == u32::MAX {
                    return None;
                }
                let idx = if li.index >= prev + 1 {
                    li.index
                } else {
                    prev + 1
                };
                Some((Node::ListItem(ListItem { container: li.container, index: idx }), idx))
            },
            other => Some((other, prev)),
        }
    }

    /// Gives the list items among `items` increasing indices: each the greater of its own
    /// index and one more than the index before it.
    fn renumber(items: Vec<Node<'a>>) -> (r: Option<Vec<Node<'a>>>)
        ensures
            r is Some <==> renumber(views(items@), 0, 0, Seq::empty()) is Some,
            r matches Some(v) ==> renumber(views(items@), 0, 0, Seq::empty()) == Some(views(v@)),
    {
        let ghost orig = views(items@);
        let ghost elems = items@;
        let mut out: Vec<Node<'a>> = Vec::new();
        let mut prev: u32 = 0;
        proof {
            lemma_views_index(elems);
            assert(views(out@) =~= Seq::<NodeView>::empty());
        }
        for n in it: items
            invariant
                it.seq() == elems,
                orig == views(elems),
                orig.len() == elems.len(),
                forall|k: int| 0 <= k < elems.len() ==> #[trigger] orig[k] == elems[k]@,
                renumber(orig, 0, 0, Seq::empty()) == renumber(
                    orig,
                    it.index() as int,
                    prev,
                    views(out@),
                ),
        {
            let ghost i = it.index() as int;
            proof {
                lemma_renumber_unfold(orig, i, prev, views(out@));
                assert(orig[i] == n@);
            }
            let (m, p) = match List::renumber_item(n, prev) {
                Some(x) => x,
                None => {
                    return None;
                },
            };
            proof {
                lemma_views_push(out@, m);
            }
            out.push(m);
            prev = p;
        }
        proof {
            lemma_renumber_unfold(orig, orig.len() as int, prev, views(out@));
        }
        Some(out)
    }

    /// The index of the first list item among `items`, or 1 when there is none.
    fn first_index(items: &Vec<Node<'a>>) -> (r: u32)
        ensures
            r == first_index(views(items@), 0),
    {
        proof {
            lemma_views_index(items@);
        }
        let mut i: usize = 0;
        while i < items.len()
            invariant
                i <= items@.len(),
                views(items@).len() == items@.len(),
                forall|k: int| 0 <= k < items@.len() ==> #[trigger] views(items@)[k] == items@[k]@,
                first_index(views(items@), 0) == first_index(views(items@), i as int),
            decreases items@.len() - i,
        {
            match &items[i] {
                Node::ListItem(li) => {
                    return li.index;
                },
                _ => {},
            }
            i += 1;
        }
        1
    }

    /// Builds a list: the tag tells whether it is ordered, its one sub-span whether it is
    /// tight, and its items are renumbered to increase.
    pub fn try_from_span(input: &'a str, s: &Span) -> (r: Result<Node<'a>, ParseError>)
        requires
            s.wf(input.spec_bytes()),
        ensures
            gives(r, list(input.spec_bytes(), *s)),
        decreases s, 3int,
    {
        if !(s.rule == Rule::BulletList || s.rule == Rule::OrderedList) {
            return Err(syntax_error(input, "Expected a list node for", s.start, s.end));
        }
        let ghost b = input.spec_bytes();
        if s.inner.len() == 0 {
            return Err(syntax_error(input, "Expected a list form in", s.start, s.end));
        }
        let form = &s.inner[0];
        proof {
            lemma_inner_wf(b, *s, 0);
        }
        let tight = match form.rule {
            Rule::ListTight => true,
            Rule::ListLoose => false,
            _ => {
                return Err(syntax_error(input, "Expected a tight or loose list in", s.start, s.end));
            },
        };
        assert(decreases_to!(*s => s.inner@[0]));
        let items = match build_container(input, form, 0) {
            Ok(c) => c.children.0,
            Err(e) => {
                return Err(e);
            },
        };
        let numbered = match List::renumber(items) {
            Some(v) => v,
            None => {
                return Err(syntax_error(input, "List index out of range in", s.start, s.end));
            },
        };
        let start = List::first_index(&numbered);
        let ordered = s.rule == Rule::OrderedList;
        let container = Container { children: Children(numbered), span: slice(input, s.start, s.end) };
        Ok(Node::List(List { container, tight, ordered, start }))
    }
}

impl<'a> ListItem<'a> {
    /// Builds a list item: its marker gives its index, and the sub-spans after the marker
    /// its children.
    pub fn try_from_span(input: &'a str, s: &Span) -> (r: Result<Node<'a>, ParseError>)
        requires
            s.wf(input.spec_bytes()),
        ensures
            gives(r, list_item(input.spec_bytes(), *s)),
        decreases s, 3int,
    {
        if !(s.rule == Rule::ListItem || s.rule == Rule::ListItemTight) {
            return Err(syntax_error(input, "Expected a list item in", s.start, s.end));
        }
        let ghost b = input.spec_bytes();
        if s.inner.len() == 0 {
            return Err(syntax_error(input, "Expected a list marker in", s.start, s.end));
        }
        let marker = &s.inner[0];
        proof {
            lemma_inner_wf(b, *s, 0);
        }
        let index: u32 = match marker.rule {
            Rule::ListIndex => match parse_u32(slice(input, marker.start, marker.end)) {
                Ok(n) => if n >= 1 {
                    n
                } else {
                    1
                },
                Err(msg) => {
                    return Err(ParseError::SyntaxError(msg));
                },
            },
            Rule::DashBullet | Rule::StarBullet | Rule::PlusBullet => 1,
            _ => {
                return Err(syntax_error(input, "Expected a bullet or list index in", s.start, s.end));
            },
        };
        assert(marker_index(b, *s, s.inner@[0]) == Ok::<u32, Seq<char>>(index));
        if s.inner.len() < 2 {
            return Err(syntax_error(input, "Expected list contents in", s.start, s.end));
        }
        let container = match build_container(input, s, 1) {
            Ok(c) => c,
            Err(e) => {
                return Err(e);
            },
        };
        Ok(Node::ListItem(ListItem { container, index }))
    }
}

impl<'a> Heading<'a> {
    /// Builds a heading: the length of its first sub-span (the run of markers) is its level,
    /// and the sub-spans after it are its title.
    pub fn try_from_span(input: &'a str, s: &Span) -> (r: Result<Node<'a>, ParseError>)
        requires
            s.wf(input.spec_bytes()),
        ensures
            gives(r, heading(input.spec_bytes(), *s)),
        decreases s, 3int,
    {
        if s.rule != Rule::Header {
            return Err(syntax_error(input, "Expected a heading in", s.start, s.end));
        }
        let ghost b = input.spec_bytes();
        if s.inner.len() == 0 {
            return Err(syntax_error(input, "No header markers found in", s.start, s.end));
        }
        if s.inner.len() < 2 {
            return Err(syntax_error(input, "No title found in", s.start, s.end));
        }
        let marker = &s.inner[0];
        proof {
            lemma_inner_wf(b, *s, 0);
        }
        let len = marker.end - marker.start;
        if len < 1 || len > 6 {
            return Err(syntax_error(input, "Heading level out of range in", s.start, s.end));
        }
        let container = match build_container(input, s, 1) {
            Ok(c) => c,
            Err(e) => {
                return Err(e);
            },
        };
        Ok(Node::Heading(Heading { container, level: len as u8 }))
    }
}

impl<'a> CodeBlock<'a> {
    /// Builds a code block: a fenced one takes its language from a leading language token,
    /// if there is one; its body keeps the text between its sub-spans as it stands.
    pub fn try_from_span(input: &'a str, s: &Span) -> (r: Result<Node<'a>, ParseError>)
        requires
            s.wf(input.spec_bytes()),
        ensures
            gives(r, code_block(input.spec_bytes(), *s)),
        decreases s, 3int,
    {
        if !(s.rule == Rule::FencedCodeblock || s.rule == Rule::IndentedCodeblock) {
            return Err(syntax_error(input, "Expected a codeblock type in", s.start, s.end));
        }
        let ghost b = input.spec_bytes();
        let (language, from) = if s.rule == Rule::FencedCodeblock && s.inner.len() > 0
            && s.inner[0].rule == Rule::InfoStringLanguage {
            proof {
                lemma_inner_wf(b, *s, 0);
            }
            (Some(slice(input, s.inner[0].start, s.inner[0].end)), 1)
        } else {
            (None, 0)
        };
        let container = match build_container(input, s, from) {
            Ok(c) => c,
            Err(e) => {
                return Err(e);
            },
        };
        Ok(Node::CodeBlock(CodeBlock { container, language }))
    }
}

impl<'a> Link<'a> {
    /// Builds a link or a reference definition: its first sub-span is the label, the second
    /// (if any) the destination, the third (if any) the title. Without a destination the
    /// label's own text is the destination.
    pub fn try_from_span(input: &'a str, s: &Span) -> (r: Result<Node<'a>, ParseError>)
        requires
            s.wf(input.spec_bytes()),
        ensures
            gives(r, link(input.spec_bytes(), *s)),
        decreases s, 3int,
    {
        if !(s.rule == Rule::Link || s.rule == Rule::Reference) {
            return Err(syntax_error(input, "Expected a link in", s.start, s.end));
        }
        let ghost b = input.spec_bytes();
        if s.inner.len() == 0 {
            return Err(syntax_error(input, "No label node found in", s.start, s.end));
        }
        let label = &s.inner[0];
        proof {
            lemma_inner_wf(b, *s, 0);
        }
        let label_text = slice(input, label.start, label.end);
        let source = if s.inner.len() > 1 {
            proof {
                lemma_inner_wf(b, *s, 1);
            }
            slice(input, s.inner[1].start, s.inner[1].end)
        } else {
            label_text
        };
        let title = if s.inner.len() > 2 {
            proof {
                lemma_inner_wf(b, *s, 2);
            }
            Some(slice(input, s.inner[2].start, s.inner[2].end))
        } else {
            None
        };
        assert(decreases_to!(*s => s.inner@[0]));
        let label_part = match build_container(input, label, 0) {
            Ok(c) => c,
            Err(e) => {
                return Err(e);
            },
        };
        let container = Container { children: label_part.children, span: slice(input, s.start, s.end) };
        if s.rule == Rule::Reference {
            Ok(Node::Reference(Reference { container, name: label_text, source, title }))
        } else {
            Ok(Node::Link(Link { container, source, title }))
        }
    }
}

impl<'a> Image<'a> {
    /// Builds an image from its two sub-spans: the alternative text and the source.
    pub fn try_from_span(input: &'a str, s: &Span) -> (r: Result<Node<'a>, ParseError>)
        requires
            s.wf(input.spec_bytes()),
        ensures
            gives(r, image(input.spec_bytes(), *s)),
    {
        if s.rule != Rule::Image {
            return Err(syntax_error(input, "Expected an image in", s.start, s.end));
        }
        let ghost b = input.spec_bytes();
        if s.inner.len() == 0 {
            return Err(syntax_error(input, "No label node found in", s.start, s.end));
        }
        if s.inner.len() < 2 {
            return Err(syntax_error(input, "No source found for image in", s.start, s.end));
        }
        proof {
            lemma_inner_wf(b, *s, 0);
            lemma_inner_wf(b, *s, 1);
        }
        let alt = slice(input, s.inner[0].start, s.inner[0].end);
        let source = slice(input, s.inner[1].start, s.inner[1].end);
        Ok(Node::Image(Image { leaf: Leaf { literal: alt }, source }))
    }
}

impl<'a> Node<'a> {
    /// Builds the node that the span `s` of `input` stands for, with all its descendants.
    pub fn try_from_span(input: &'a str, s: &Span) -> (r: Result<Node<'a>, ParseError>)
        requires
            s.wf(input.spec_bytes()),
        ensures
            gives(r, build(input.spec_bytes(), *s)),
        decreases s, 4int,
    {
        let ghost b = input.spec_bytes();
        reveal(build);
        match s.rule {
            Rule::Document | Rule::Paragraph | Rule::Verbatim | Rule::Emphasis | Rule::Strong
            | Rule::Label | Rule::Code => {
                let c = match build_container(input, s, 0) {
                    Ok(c) => c,
                    Err(e) => {
                        return Err(e);
                    },
                };
                Ok(
                    match s.rule {
                        Rule::Document => Node::Document(c),
                        Rule::Paragraph => Node::Paragraph(c),
                        Rule::Verbatim => Node::BlockQuote(c),
                        Rule::Emphasis => Node::Emphasis(c),
                        Rule::Strong => Node::Strong(c),
                        Rule::Label => Node::Label(c),
                        _ => Node::Code(c),
                    },
                )
            },
            Rule::Header => Heading::try_from_span(input, s),
            Rule::BulletList | Rule::OrderedList => List::try_from_span(input, s),
            Rule::ListItem | Rule::ListItemTight => ListItem::try_from_span(input, s),
            Rule::FencedCodeblock | Rule::IndentedCodeblock => CodeBlock::try_from_span(input, s),
            Rule::Link | Rule::Reference => Link::try_from_span(input, s),
            Rule::Image => Image::try_from_span(input, s),
            Rule::Linebreak => Ok(Node::Linebreak(Leaf { literal: slice(input, s.start, s.end) })),
            Rule::NormalEndline | Rule::BlockquoteLinebreak => Ok(
                Node::SoftLinebreak(Leaf { literal: slice(input, s.start, s.end) }),
            ),
            Rule::Eoi => Ok(Node::EOI),
            Rule::Str | Rule::Space | Rule::Symbol | Rule::EscapedSpecialChar | Rule::Source
            | Rule::LinebreakLiteral => {
                if s.start == s.end {
                    return Err(syntax_error(input, "Empty text in", s.start, s.end));
                }
                Ok(Node::Text(Leaf { literal: slice(input, s.start, s.end) }))
            },
            _ => {
                let what = String::from_str("Failed to find a node to represent a ").concat(
                    s.rule.name(),
                );
                Err(syntax_error(input, what.as_str(), s.start, s.end))
            },
        }
    }
}

} // verus!
