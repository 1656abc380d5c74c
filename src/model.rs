use vstd::prelude::*;
use vstd::string::StringSliceAdditionalSpecFns;

verus! {

/// What a node is, with the attributes of its variant; texts are the bytes they borrow.
pub enum Kind {
    Document,
    Paragraph,
    BlockQuote,
    Heading { level: u8 },
    List { tight: bool, ordered: bool, start: u32 },
    ListItem { index: u32 },
    CodeBlock { language: Option<Seq<u8>> },
    Emphasis,
    Strong,
    Label,
    Code,
    Link { source: Seq<u8>, title: Option<Seq<u8>> },
    Reference { name: Seq<u8>, source: Seq<u8>, title: Option<Seq<u8>> },
    Image { source: Seq<u8> },
    Text,
    Linebreak,
    SoftLinebreak,
    Eoi,
}

impl Kind {
    pub open spec fn is_container(self) -> bool {
        !(self is Image || self is Text || self is Linebreak || self is SoftLinebreak
            || self is Eoi)
    }
}

/// The mathematical value of a node: its kind, the bytes of its span, and its children.
pub struct NodeView {
    pub kind: Kind,
    pub span: Seq<u8>,
    pub children: Seq<NodeView>,
}

/// The ordered children of a container node.
#[derive(Debug)]
pub struct Children<'a>(pub Vec<Node<'a>>);

/// The span and children shared by every container node.
#[derive(Debug)]
pub struct Container<'a> {
    pub children: Children<'a>,
    pub span: &'a str,
}

/// The span of a leaf node.
#[derive(Debug)]
pub struct Leaf<'a> {
    pub literal: &'a str,
}

#[derive(Debug)]
pub struct Heading<'a> {
    pub container: Container<'a>,
    pub level: u8,
}

#[derive(Debug)]
pub struct List<'a> {
    pub container: Container<'a>,
    pub tight: bool,
    pub ordered: bool,
    pub start: u32,
}

#[derive(Debug)]
pub struct ListItem<'a> {
    pub container: Container<'a>,
    pub index: u32,
}

#[derive(Debug)]
pub struct CodeBlock<'a> {
    pub container: Container<'a>,
    pub language: Option<&'a str>,
}

#[derive(Debug)]
pub struct Link<'a> {
    pub container: Container<'a>,
    pub source: &'a str,
    pub title: Option<&'a str>,
}

#[derive(Debug)]
pub struct Reference<'a> {
    pub container: Container<'a>,
    pub name: &'a str,
    pub source: &'a str,
    pub title: Option<&'a str>,
}

/// An image: its span is the alternative text.
#[derive(Debug)]
pub struct Image<'a> {
    pub leaf: Leaf<'a>,
    pub source: &'a str,
}

/// A node of the syntax tree. Every text it holds is borrowed from the parsed input.
#[derive(Debug)]
pub enum Node<'a> {
    Document(Container<'a>),
    Paragraph(Container<'a>),
    BlockQuote(Container<'a>),
    Heading(Heading<'a>),
    List(List<'a>),
    ListItem(ListItem<'a>),
    CodeBlock(CodeBlock<'a>),
    Emphasis(Container<'a>),
    Strong(Container<'a>),
    Label(Container<'a>),
    Link(Link<'a>),
    Reference(Reference<'a>),
    Code(Container<'a>),
    Image(Image<'a>),
    Text(Leaf<'a>),
    Linebreak(Leaf<'a>),
    SoftLinebreak(Leaf<'a>),
    EOI,
}

/// Whether a node is a container, a leaf or the end-of-input sentinel.
pub enum NodeType<'n, 'a> {
    Leaf(&'n Leaf<'a>),
    Container(&'n Container<'a>),
    EOI,
}

pub open spec fn opt_bytes(o: Option<&str>) -> Option<Seq<u8>> {
    match o {
        Some(s) => Some(s.spec_bytes()),
        None => None,
    }
}

/// The views of a sequence of nodes.
pub open spec fn views<'a>(s: Seq<Node<'a>>) -> Seq<NodeView>
    decreases s,
{
    if s.len() == 0 {
        Seq::empty()
    } else {
        views(s.subrange(0, s.len() - 1)).push(s[s.len() - 1].view())
    }
}

pub open spec fn container_view<'a>(kind: Kind, c: Container<'a>) -> NodeView {
    NodeView { kind, span: c.span.spec_bytes(), children: views(c.children.0@) }
}

pub open spec fn leaf_view<'a>(kind: Kind, l: Leaf<'a>) -> NodeView {
    NodeView { kind, span: l.literal.spec_bytes(), children: Seq::empty() }
}

impl<'a> Node<'a> {
    pub open spec fn view(&self) -> NodeView
        decreases self,
    {
        match self {
            Node::Document(c) => NodeView {
                kind: Kind::Document,
                span: c.span.spec_bytes(),
                children: views(c.children.0@),
            },
            Node::Paragraph(c) => NodeView {
                kind: Kind::Paragraph,
                span: c.span.spec_bytes(),
                children: views(c.children.0@),
            },
            Node::BlockQuote(c) => NodeView {
                kind: Kind::BlockQuote,
                span: c.span.spec_bytes(),
                children: views(c.children.0@),
            },
            Node::Heading(h) => NodeView {
                kind: Kind::Heading { level: h.level },
                span: h.container.span.spec_bytes(),
                children: views(h.container.children.0@),
            },
            Node::List(l) => NodeView {
                kind: Kind::List { tight: l.tight, ordered: l.ordered, start: l.start },
                span: l.container.span.spec_bytes(),
                children: views(l.container.children.0@),
            },
            Node::ListItem(li) => NodeView {
                kind: Kind::ListItem { index: li.index },
                span: li.container.span.spec_bytes(),
                children: views(li.container.children.0@),
            },
            Node::CodeBlock(cb) => NodeView {
                kind: Kind::CodeBlock { language: opt_bytes(cb.language) },
                span: cb.container.span.spec_bytes(),
                children: views(cb.container.children.0@),
            },
            Node::Emphasis(c) => NodeView {
                kind: Kind::Emphasis,
                span: c.span.spec_bytes(),
                children: views(c.children.0@),
            },
            Node::Strong(c) => NodeView {
                kind: Kind::Strong,
                span: c.span.spec_bytes(),
                children: views(c.children.0@),
            },
            Node::Label(c) => NodeView {
                kind: Kind::Label,
                span: c.span.spec_bytes(),
                children: views(c.children.0@),
            },
            Node::Link(l) => NodeView {
                kind: Kind::Link { source: l.source.spec_bytes(), title: opt_bytes(l.title) },
                span: l.container.span.spec_bytes(),
                children: views(l.container.children.0@),
            },
            Node::Reference(r) => NodeView {
                kind: Kind::Reference {
                    name: r.name.spec_bytes(),
                    source: r.source.spec_bytes(),
                    title: opt_bytes(r.title),
                },
                span: r.container.span.spec_bytes(),
                children: views(r.container.children.0@),
            },
            Node::Code(c) => NodeView {
                kind: Kind::Code,
                span: c.span.spec_bytes(),
                children: views(c.children.0@),
            },
            Node::Image(i) => NodeView {
                kind: Kind::Image { source: i.source.spec_bytes() },
                span: i.leaf.literal.spec_bytes(),
                children: Seq::empty(),
            },
            Node::Text(l) => leaf_view(Kind::Text, *l),
            Node::Linebreak(l) => leaf_view(Kind::Linebreak, *l),
            Node::SoftLinebreak(l) => leaf_view(Kind::SoftLinebreak, *l),
            Node::EOI => NodeView { kind: Kind::Eoi, span: Seq::empty(), children: Seq::empty() },
        }
    }

    /// The children of a container node; empty for the others.
    pub open spec fn child_nodes(&self) -> Seq<Node<'a>> {
        match self {
            Node::Document(c) | Node::Paragraph(c) | Node::BlockQuote(c) | Node::Emphasis(c)
            | Node::Strong(c) | Node::Label(c) | Node::Code(c) => c.children.0@,
            Node::Heading(h) => h.container.children.0@,
            Node::List(l) => l.container.children.0@,
            Node::ListItem(li) => li.container.children.0@,
            Node::CodeBlock(cb) => cb.container.children.0@,
            Node::Link(l) => l.container.children.0@,
            Node::Reference(r) => r.container.children.0@,
            _ => Seq::empty(),
        }
    }

    /// The children of a container node; `None` for leaves and the end-of-input sentinel.
    pub fn children(&self) -> (r: Option<&Children<'a>>)
        ensures
            r is Some <==> self@.kind.is_container(),
            r matches Some(c) ==> views(c.0@) == self@.children && c.0@ == self.child_nodes(),
            !self@.kind.is_container() ==> self@.children.len() == 0,
    {
        match self {
            Node::Document(c) | Node::Paragraph(c) | Node::BlockQuote(c) | Node::Emphasis(c)
            | Node::Strong(c) | Node::Label(c) | Node::Code(c) => Some(&c.children),
            Node::Heading(h) => Some(&h.container.children),
            Node::List(l) => Some(&l.container.children),
            Node::ListItem(li) => Some(&li.container.children),
            Node::CodeBlock(cb) => Some(&cb.container.children),
            Node::Link(l) => Some(&l.container.children),
            Node::Reference(r) => Some(&r.container.children),
            _ => None,
        }
    }

    /// The children of a container node, to change in place; `None` for leaves and the
    /// end-of-input sentinel. Nothing else of the node changes.
    pub fn children_mut(&mut self) -> (r: Option<&mut Children<'a>>)
        ensures
            r is Some <==> old(self)@.kind.is_container(),
            r matches Some(c) ==> c.0@ == old(self).child_nodes() && final(self).child_nodes()
                == final(c).0@,
            final(self)@.kind == old(self)@.kind,
            final(self)@.span == old(self)@.span,
            r is None ==> *final(self) == *old(self),
    {
        match self {
            Node::Document(c) => Some(&mut c.children),
            Node::Paragraph(c) => Some(&mut c.children),
            Node::BlockQuote(c) => Some(&mut c.children),
            Node::Emphasis(c) => Some(&mut c.children),
            Node::Strong(c) => Some(&mut c.children),
            Node::Label(c) => Some(&mut c.children),
            Node::Code(c) => Some(&mut c.children),
            Node::Heading(h) => Some(&mut h.container.children),
            Node::List(l) => Some(&mut l.container.children),
            Node::ListItem(li) => Some(&mut li.container.children),
            Node::CodeBlock(cb) => Some(&mut cb.container.children),
            Node::Link(l) => Some(&mut l.container.children),
            Node::Reference(r) => Some(&mut r.container.children),
            _ => None,
        }
    }

    /// The node's source text; `"EOI"` for the end-of-input sentinel.
    pub fn as_span(&self) -> (r: &'a str)
        ensures
            !(self@.kind is Eoi) ==> r.spec_bytes() == self@.span,
            self@.kind is Eoi ==> r@ == "EOI"@,
    {
        match self.inner() {
            NodeType::Container(c) => c.span,
            NodeType::Leaf(l) => l.literal,
            NodeType::EOI => "EOI",
        }
    }

    /// The container or leaf that carries this node's span.
    pub fn inner(&self) -> (r: NodeType<'_, 'a>)
        ensures
            r matches NodeType::Container(c) ==> self@.kind.is_container() && c.span.spec_bytes()
                == self@.span && views(c.children.0@) == self@.children,
            r matches NodeType::Leaf(l) ==> !self@.kind.is_container() && !(self@.kind is Eoi)
                && l.literal.spec_bytes() == self@.span,
            r is EOI <==> self@.kind is Eoi,
    {
        match self {
            Node::Document(c) | Node::Paragraph(c) | Node::BlockQuote(c) | Node::Emphasis(c)
            | Node::Strong(c) | Node::Label(c) | Node::Code(c) => NodeType::Container(c),
            Node::Heading(h) => NodeType::Container(&h.container),
            Node::List(l) => NodeType::Container(&l.container),
            Node::ListItem(li) => NodeType::Container(&li.container),
            Node::CodeBlock(cb) => NodeType::Container(&cb.container),
            Node::Link(l) => NodeType::Container(&l.container),
            Node::Reference(r) => NodeType::Container(&r.container),
            Node::Image(i) => NodeType::Leaf(&i.leaf),
            Node::Text(l) | Node::Linebreak(l) | Node::SoftLinebreak(l) => NodeType::Leaf(l),
            Node::EOI => NodeType::EOI,
        }
    }
}

/// A node is larger than each of its children, which lets recursion over the tree end.
pub proof fn lemma_children_decrease<'a>(n: Node<'a>, i: int)
    requires
        0 <= i < n.child_nodes().len(),
    ensures
        decreases_to!(n => n.child_nodes()[i]),
{
    match n {
        Node::Document(c) | Node::Paragraph(c) | Node::BlockQuote(c) | Node::Emphasis(c)
        | Node::Strong(c) | Node::Label(c) | Node::Code(c) => {
            assert(decreases_to!(n => c.children.0@[i]));
        },
        Node::Heading(h) => {
            assert(decreases_to!(n => h.container.children.0@[i]));
        },
        Node::List(l) => {
            assert(decreases_to!(n => l.container.children.0@[i]));
        },
        Node::ListItem(li) => {
            assert(decreases_to!(n => li.container.children.0@[i]));
        },
        Node::CodeBlock(cb) => {
            assert(decreases_to!(n => cb.container.children.0@[i]));
        },
        Node::Link(l) => {
            assert(decreases_to!(n => l.container.children.0@[i]));
        },
        Node::Reference(r) => {
            assert(decreases_to!(n => r.container.children.0@[i]));
        },
        _ => {},
    }
}

} // verus!
