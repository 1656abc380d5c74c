use vstd::prelude::*;
use vstd::string::{StringExecFns, StringSliceAdditionalSpecFns};
use crate::decimal::{decimal, decimal_chars};
use crate::model::{CodeBlock, Heading, Image, Link, List, Node, Reference};
use crate::resolver::{LinkResolver, last_named};
use crate::traversal::{Direction, NextAction, Visit, Visitor};

verus! {

/// The tightness and first number of a list being rendered.
#[derive(Clone, Copy, Debug, PartialEq, Eq, Structural)]
pub struct ListContext {
    pub tight: bool,
    pub start: u32,
}

/// The state a rendering pass keeps between visits: the lists it is inside, innermost last.
#[derive(Debug)]
pub struct GenerationContext {
    list_context: Vec<ListContext>,
}

impl GenerationContext {
    pub closed spec fn lists(&self) -> Seq<ListContext> {
        self.list_context@
    }

    pub fn new() -> (r: Self)
        ensures
            r.lists().len() == 0,
    {
        GenerationContext { list_context: Vec::new() }
    }

    /// Enters a list.
    pub fn push_list_context(&mut self, list: &List) -> (r: &Self)
        ensures
            final(self).lists() == old(self).lists().push(
                ListContext { tight: list.tight, start: list.start },
            ),
    {
        self.list_context.push(ListContext { tight: list.tight, start: list.start });
        self
    }

    /// The innermost list being rendered, if any.
    pub fn list_context(&self) -> (r: Option<&ListContext>)
        ensures
            r is Some <==> self.lists().len() > 0,
            r matches Some(c) ==> *c == self.lists().last(),
    {
        if self.list_context.len() == 0 {
            None
        } else {
            Some(&self.list_context[self.list_context.len() - 1])
        }
    }

    /// Leaves the innermost list; nothing happens outside any list.
    pub fn drop_list_context(&mut self) -> (r: &Self)
        ensures
            old(self).lists().len() > 0 ==> final(self).lists() == old(self).lists().drop_last(),
            old(self).lists().len() == 0 ==> final(self).lists() == old(self).lists(),
    {
        if self.list_context.len() > 0 {
            self.list_context.pop();
            assert(self.list_context@ =~= old(self).list_context@.drop_last());
        }
        self
    }
}

/// Why rendering stopped.
#[derive(Debug, PartialEq, Eq)]
pub enum RenderError {
    IOError(String),
    StateError(String),
}

pub open spec fn opt_text(o: Option<&str>) -> Seq<char> {
    match o {
        Some(t) => t@,
        None => Seq::empty(),
    }
}

impl RenderError {
    /// The error as a sentence for people.
    pub fn message(&self) -> (r: String)
        ensures
            self matches RenderError::IOError(m) ==> r@ == "IOError ("@ + m@ + ")"@,
            self matches RenderError::StateError(m) ==> r@ == "StateError ("@ + m@ + ")"@,
    {
        match self {
            RenderError::IOError(m) => String::from_str("IOError (").concat(m.as_str()).concat(")"),
            RenderError::StateError(m) => String::from_str("StateError (").concat(m.as_str()).concat(
                ")",
            ),
        }
    }
}

/// The text of `attrs` as HTML attributes: ` name="value"` each.
pub open spec fn attrs_text(attrs: Seq<(&str, &str)>) -> Seq<char>
    decreases attrs.len(),
{
    if attrs.len() == 0 {
        Seq::empty()
    } else {
        attrs_text(attrs.drop_last()) + " "@ + attrs.last().0@ + "=\""@ + attrs.last().1@ + "\""@
    }
}

/// An opening tag, or a self-closing one when `close` holds.
pub open spec fn tag_text(tag: &str, attrs: Seq<(&str, &str)>, close: bool) -> Seq<char> {
    "<"@ + tag@ + attrs_text(attrs) + if close {
        "/>"@
    } else {
        ">"@
    }
}

/// The attributes of a link's opening tag: its destination and title, taken from the last
/// definition named by its destination when there is one.
pub open spec fn link_attrs<'a>(defs: Seq<&'a Reference<'a>>, link: &Link<'a>) -> Seq<(&'a str, &'a str)> {
    let (source, title) = match last_named(defs, link.source.spec_bytes()) {
        Some(i) => (defs[i].source, defs[i].title),
        None => (link.source, link.title),
    };
    match title {
        Some(t) => seq![("href", source), ("title", t)],
        None => seq![("href", source)],
    }
}

pub open spec fn open_close(d: Direction, open: Seq<char>, close: Seq<char>) -> Seq<char> {
    if d == Direction::Entering {
        open
    } else {
        close
    }
}

/// The HTML written for one visit of `node`, given the reference definitions and the lists
/// being rendered; `None` for a list item outside any list.
pub open spec fn emitted<'a>(
    defs: Seq<&'a Reference<'a>>,
    lists: Seq<ListContext>,
    node: &Node<'a>,
    d: Direction,
) -> Option<Seq<char>> {
    match node {
        Node::Document(_) => Some(open_close(d, "<!DOCTYPE html><html>"@, "</html>"@)),
        Node::Paragraph(_) => Some(open_close(d, "<p>"@, "</p>"@)),
        Node::BlockQuote(_) => Some(open_close(d, "<blockquote>"@, "</blockquote>"@)),
        Node::Heading(h) => Some(
            open_close(d, "<h"@, "</h"@) + decimal_chars(h.level as nat) + ">"@,
        ),
        Node::List(l) => Some(
            if d == Direction::Entering {
                if l.ordered {
                    "<ol start=\""@ + decimal_chars(l.start as nat) + "\">"@
                } else {
                    "<ul>"@
                }
            } else if l.ordered {
                "</ol>"@
            } else {
                "</ul>"@
            },
        ),
        Node::ListItem(_) => if lists.len() == 0 {
            None
        } else if lists.last().tight {
            Some(open_close(d, "<li>"@, "</li>"@))
        } else {
            Some(open_close(d, "<li><p>"@, "</p></li>"@))
        },
        Node::CodeBlock(cb) => Some(
            if d == Direction::Exiting {
                "</code></pre>"@
            } else {
                match cb.language {
                    Some(l) => "<pre>"@ + "<code class=\"language-"@ + l@ + "\">"@,
                    None => "<pre>"@ + "<code>"@,
                }
            },
        ),
        Node::Emphasis(_) => Some(open_close(d, "<em>"@, "</em>"@)),
        Node::Strong(_) => Some(open_close(d, "<strong>"@, "</strong>"@)),
        Node::Code(_) => Some(open_close(d, "<pre><code>"@, "</code></pre>"@)),
        Node::Link(l) => Some(
            if d == Direction::Entering {
                tag_text("a", link_attrs(defs, l), false)
            } else {
                "</a>"@
            },
        ),
        Node::Image(i) => Some(
            tag_text("img", seq![("src", i.source), ("alt", i.leaf.literal)], true),
        ),
        Node::Text(t) => Some(t.literal@),
        Node::Linebreak(_) => Some("</br>"@),
        Node::SoftLinebreak(_) => Some(" "@),
        Node::Label(_) | Node::Reference(_) | Node::EOI => Some(Seq::empty()),
    }
}

/// The lists being rendered after a visit of `node`: a list is entered and left.
pub open spec fn lists_after<'a>(lists: Seq<ListContext>, node: &Node<'a>, d: Direction) -> Seq<
    ListContext,
> {
    match node {
        Node::List(l) => if d == Direction::Entering {
            lists.push(ListContext { tight: l.tight, start: l.start })
        } else if lists.len() > 0 {
            lists.drop_last()
        } else {
            lists
        },
        _ => lists,
    }
}

/// A visitor that renders a syntax tree as HTML.
pub struct HTMLRenderer<'a> {
    output: String,
    context: GenerationContext,
    link_table: LinkResolver<'a>,
    history: Ghost<Seq<Visit>>,
}

impl<'a> HTMLRenderer<'a> {
    /// The HTML written so far.
    pub closed spec fn out(&self) -> Seq<char> {
        self.output@
    }

    pub closed spec fn lists(&self) -> Seq<ListContext> {
        self.context.lists()
    }

    pub closed spec fn table(&self) -> LinkResolver<'a> {
        self.link_table
    }

    pub fn new() -> (r: Self)
        ensures
            r.out().len() == 0,
            r.lists().len() == 0,
            r.visits().len() == 0,
            r.table().defs().len() == 0,
    {
        HTMLRenderer {
            output: String::new(),
            context: GenerationContext::new(),
            link_table: LinkResolver::new(),
            history: Ghost(Seq::empty()),
        }
    }

    /// A renderer that resolves link destinations through `resolver`.
    pub fn with_resolver(resolver: LinkResolver<'a>) -> (r: Self)
        ensures
            r.out().len() == 0,
            r.lists().len() == 0,
            r.visits().len() == 0,
            r.table() == resolver,
    {
        HTMLRenderer {
            output: String::new(),
            context: GenerationContext::new(),
            link_table: resolver,
            history: Ghost(Seq::empty()),
        }
    }

    /// A renderer whose output buffer is allocated ahead for `capacity` bytes.
    pub fn with_capacity(capacity: usize) -> (r: Self)
        ensures
            r.out().len() == 0,
            r.lists().len() == 0,
            r.visits().len() == 0,
            r.table().defs().len() == 0,
    {
        HTMLRenderer {
            output: reserve_string(capacity),
            context: GenerationContext::new(),
            link_table: LinkResolver::new(),
            history: Ghost(Seq::empty()),
        }
    }

    /// The HTML written so far.
    pub fn output(&self) -> (r: &str)
        ensures
            r@ == self.out(),
    {
        self.output.as_str()
    }

    fn write(&mut self, s: &str)
        ensures
            final(self).out() == old(self).out() + s@,
            final(self).lists() == old(self).lists(),
            final(self).table() == old(self).table(),
            final(self).visits() == old(self).visits(),
    {
        self.output.append(s);
    }

    fn tag_with_attrs(&mut self, tag: &str, attrs: &Vec<(&str, &str)>, close: bool)
        ensures
            final(self).out() == old(self).out() + tag_text(tag, attrs@, close),
            final(self).lists() == old(self).lists(),
            final(self).table() == old(self).table(),
            final(self).visits() == old(self).visits(),
    {
        let ghost start = self.out();
        self.write("<");
        self.write(tag);
        let mut i: usize = 0;
        while i < attrs.len()
            invariant
                i <= attrs@.len(),
                self.out() == start + "<"@ + tag@ + attrs_text(attrs@.subrange(0, i as int)),
                self.lists() == old(self).lists(),
                self.table() == old(self).table(),
                self.visits() == old(self).visits(),
            decreases attrs@.len() - i,
        {
            let (name, value) = attrs[i];
            self.write(" ");
            self.write(name);
            self.write("=\"");
            self.write(value);
            self.write("\"");
            proof {
                let pre = attrs@.subrange(0, i + 1);
                assert(pre.drop_last() =~= attrs@.subrange(0, i as int));
                assert(self.out() =~= start + "<"@ + tag@ + attrs_text(pre));
            }
            i += 1;
        }
        assert(attrs@.subrange(0, i as int) =~= attrs@);
        if close {
            self.write("/>");
        } else {
            self.write(">");
        }
        assert(self.out() =~= start + tag_text(tag, attrs@, close));
    }

    fn linebreak(&mut self)
        ensures
            final(self).out() == old(self).out() + "</br>"@,
            final(self).lists() == old(self).lists(),
            final(self).table() == old(self).table(),
            final(self).visits() == old(self).visits(),
    {
        self.write("</br>");
    }

    fn link(&mut self, link: &Link<'a>, direction: Direction)
        ensures
            final(self).lists() == old(self).lists(),
            final(self).table() == old(self).table(),
            final(self).visits() == old(self).visits(),
            direction == Direction::Exiting ==> final(self).out() == old(self).out() + "</a>"@,
            direction == Direction::Entering ==> final(self).out() == old(self).out() + tag_text(
                "a",
                link_attrs(old(self).table().defs(), link),
                false,
            ),
    {
        match direction {
            Direction::Entering => {
                let (source, title) = match self.link_table.resolve(link.source) {
                    Some(reference) => (reference.source, reference.title),
                    None => (link.source, link.title),
                };
                match title {
                    Some(t) => {
                        let attrs = vec![("href", source), ("title", t)];
                        assert(attrs@ =~= link_attrs(self.table().defs(), link));
                        self.tag_with_attrs("a", &attrs, false)
                    },
                    None => {
                        let attrs = vec![("href", source)];
                        assert(attrs@ =~= link_attrs(self.table().defs(), link));
                        self.tag_with_attrs("a", &attrs, false)
                    },
                }
            },
            Direction::Exiting => self.write("</a>"),
        }
    }

    fn image(&mut self, image: &Image)
        ensures
            final(self).out() == old(self).out() + tag_text(
                "img",
                seq![("src", image.source), ("alt", image.leaf.literal)],
                true,
            ),
            final(self).lists() == old(self).lists(),
            final(self).table() == old(self).table(),
            final(self).visits() == old(self).visits(),
    {
        let attrs = vec![("src", image.source), ("alt", image.leaf.literal)];
        assert(attrs@ =~= seq![("src", image.source), ("alt", image.leaf.literal)]);
        self.tag_with_attrs("img", &attrs, true);
    }

    /// Writes `open` on entering and `close` on leaving.
    fn inline_style(&mut self, open: &str, close: &str, direction: Direction)
        ensures
            final(self).out() == old(self).out() + if direction == Direction::Entering {
                open@
            } else {
                close@
            },
            final(self).lists() == old(self).lists(),
            final(self).table() == old(self).table(),
            final(self).visits() == old(self).visits(),
    {
        match direction {
            Direction::Entering => self.write(open),
            Direction::Exiting => self.write(close),
        }
    }

    fn document(&mut self, direction: Direction)
        ensures
            final(self).out() == old(self).out() + if direction == Direction::Entering {
                "<!DOCTYPE html><html>"@
            } else {
                "</html>"@
            },
            final(self).lists() == old(self).lists(),
            final(self).table() == old(self).table(),
            final(self).visits() == old(self).visits(),
    {
        self.inline_style("<!DOCTYPE html><html>", "</html>", direction)
    }

    fn paragraph(&mut self, direction: Direction)
        ensures
            final(self).out() == old(self).out() + if direction == Direction::Entering {
                "<p>"@
            } else {
                "</p>"@
            },
            final(self).lists() == old(self).lists(),
            final(self).table() == old(self).table(),
            final(self).visits() == old(self).visits(),
    {
        self.inline_style("<p>", "</p>", direction)
    }

    fn blockquote(&mut self, direction: Direction)
        ensures
            final(self).out() == old(self).out() + if direction == Direction::Entering {
                "<blockquote>"@
            } else {
                "</blockquote>"@
            },
            final(self).lists() == old(self).lists(),
            final(self).table() == old(self).table(),
            final(self).visits() == old(self).visits(),
    {
        self.inline_style("<blockquote>", "</blockquote>", direction)
    }

    fn heading(&mut self, heading: &Heading, direction: Direction)
        ensures
            final(self).out() == old(self).out() + if direction == Direction::Entering {
                "<h"@
            } else {
                "</h"@
            } + decimal_chars(heading.level as nat) + ">"@,
            final(self).lists() == old(self).lists(),
            final(self).table() == old(self).table(),
            final(self).visits() == old(self).visits(),
    {
        let level = decimal(heading.level as usize);
        match direction {
            Direction::Entering => self.write("<h"),
            Direction::Exiting => self.write("</h"),
        }
        self.write(level.as_str());
        self.write(">");
    }

    fn list(&mut self, list: &List, direction: Direction)
        ensures
            direction == Direction::Entering ==> final(self).lists() == old(self).lists().push(
                ListContext { tight: list.tight, start: list.start },
            ),
            direction == Direction::Entering && !list.ordered ==> final(self).out()
                == old(self).out() + "<ul>"@,
            direction == Direction::Entering && list.ordered ==> final(self).out()
                == old(self).out() + "<ol start=\""@ + decimal_chars(list.start as nat)
                + "\">"@,
            direction == Direction::Exiting && old(self).lists().len() > 0 ==> final(self).lists()
                == old(self).lists().drop_last(),
            direction == Direction::Exiting && old(self).lists().len() == 0 ==> final(self).lists()
                == old(self).lists(),
            direction == Direction::Exiting ==> final(self).out() == old(self).out()
                + if list.ordered {
                "</ol>"@
            } else {
                "</ul>"@
            },
            final(self).table() == old(self).table(),
            final(self).visits() == old(self).visits(),
    {
        match direction {
            Direction::Entering => {
                self.context.push_list_context(list);
                if list.ordered {
                    let start = decimal(list.start as usize);
                    self.write("<ol start=\"");
                    self.write(start.as_str());
                    self.write("\">");
                } else {
                    self.write("<ul>");
                }
            },
            Direction::Exiting => {
                self.context.drop_list_context();
                if list.ordered {
                    self.write("</ol>");
                } else {
                    self.write("</ul>");
                }
            },
        }
    }

    /// Opens or closes a list item; a loose list wraps its items' content in a paragraph.
    fn list_item(&mut self, direction: Direction) -> (r: Result<(), RenderError>)
        ensures
            r is Err <==> old(self).lists().len() == 0,
            r matches Err(e) ==> e is StateError,
            r is Err ==> final(self).out() == old(self).out(),
            r is Ok ==> final(self).out() == old(self).out() + match (
                direction,
                old(self).lists().last().tight,
            ) {
                (Direction::Entering, true) => "<li>"@,
                (Direction::Entering, false) => "<li><p>"@,
                (Direction::Exiting, true) => "</li>"@,
                (Direction::Exiting, false) => "</p></li>"@,
            },
            final(self).lists() == old(self).lists(),
            final(self).table() == old(self).table(),
            final(self).visits() == old(self).visits(),
    {
        let tight = match self.context.list_context() {
            Some(c) => c.tight,
            None => {
                return Err(
                    RenderError::StateError(
                        String::from_str("No list context found when creating a list item"),
                    ),
                );
            },
        };
        match direction {
            Direction::Entering => if tight {
                self.write("<li>")
            } else {
                self.write("<li><p>")
            },
            Direction::Exiting => if tight {
                self.write("</li>")
            } else {
                self.write("</p></li>")
            },
        }
        Ok(())
    }

    fn codeblock(&mut self, codeblock: &CodeBlock, direction: Direction)
        ensures
            direction == Direction::Exiting ==> final(self).out() == old(self).out()
                + "</code></pre>"@,
            direction == Direction::Entering && codeblock.language is None ==> final(self).out()
                == old(self).out() + "<pre>"@ + "<code>"@,
            codeblock.language is Some && direction == Direction::Entering ==> final(self).out()
                == old(self).out() + "<pre>"@ + "<code class=\"language-"@ + opt_text(codeblock.language)
                + "\">"@,
            final(self).lists() == old(self).lists(),
            final(self).table() == old(self).table(),
            final(self).visits() == old(self).visits(),
    {
        match direction {
            Direction::Entering => {
                self.write("<pre>");
                match codeblock.language {
                    Some(language) => {
                        self.write("<code class=\"language-");
                        self.write(language);
                        self.write("\">");
                    },
                    None => self.write("<code>"),
                }
            },
            Direction::Exiting => self.write("</code></pre>"),
        }
    }

    /// Writes the HTML for one visit; answers `End` if the visit cannot be rendered.
    pub fn render(&mut self, node: &Node<'a>, direction: Direction) -> (r: NextAction)
        ensures
            final(self).table() == old(self).table(),
            final(self).visits() == old(self).visits(),
            final(self).lists() == lists_after(old(self).lists(), node, direction),
            emitted(old(self).table().defs(), old(self).lists(), node, direction) matches Some(
                text,
            ) ==> r == NextAction::GotoNext && final(self).out() == old(self).out() + text,
            emitted(old(self).table().defs(), old(self).lists(), node, direction) is None ==> r
                == NextAction::End && final(self).out() == old(self).out(),
    {
        match node {
            Node::Document(_) => self.document(direction),
            Node::Paragraph(_) => self.paragraph(direction),
            Node::BlockQuote(_) => self.blockquote(direction),
            Node::Heading(heading) => self.heading(heading, direction),
            Node::List(list) => self.list(list, direction),
            Node::ListItem(_) => {
                if self.list_item(direction).is_err() {
                    return NextAction::End;
                }
            },
            Node::CodeBlock(cb) => self.codeblock(cb, direction),
            Node::Emphasis(_) => self.inline_style("<em>", "</em>", direction),
            Node::Strong(_) => self.inline_style("<strong>", "</strong>", direction),
            Node::Code(_) => self.inline_style("<pre><code>", "</code></pre>", direction),
            Node::Link(link) => self.link(link, direction),
            Node::Image(img) => self.image(img),
            Node::Text(text) => self.write(text.literal),
            Node::Linebreak(_) => self.linebreak(),
            Node::SoftLinebreak(_) => self.write(" "),
            Node::Label(_) | Node::Reference(_) | Node::EOI => {
                assert(self.out() =~= old(self).out() + Seq::<char>::empty());
            },
        }
        NextAction::GotoNext
    }
}

/// Relies on `String::with_capacity`: an empty string.
#[verifier::external_body]
fn reserve_string(capacity: usize) -> (r: String)
    ensures
        r@.len() == 0,
{
    String::with_capacity(capacity)
}

impl<'a> Visitor<'a> for HTMLRenderer<'a> {
    closed spec fn visits(&self) -> Seq<Visit> {
        self.history@
    }

    /// Renders the visit; stops the walk when a list item stands outside any list.
    fn visit(&mut self, node: &'a Node<'a>, direction: Direction) -> (r: NextAction)
        ensures
            final(self).table() == old(self).table(),
            final(self).lists() == lists_after(old(self).lists(), node, direction),
            emitted(old(self).table().defs(), old(self).lists(), node, direction) matches Some(
                text,
            ) ==> r == NextAction::GotoNext && final(self).out() == old(self).out() + text,
            emitted(old(self).table().defs(), old(self).lists(), node, direction) is None ==> r
                == NextAction::End && final(self).out() == old(self).out(),
    {
        let r = self.render(node, direction);
        self.history = Ghost(self.history@.push(Visit { node: node@, direction, action: r }));
        r
    }
}

} // verus!
