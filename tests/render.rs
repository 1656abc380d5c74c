use mdast::decimal::decimal;
use mdast::html::{GenerationContext, HTMLRenderer, RenderError};
use mdast::model::{Children, Container, List, ListItem, Node};
use mdast::parse::parse_document;
use mdast::resolver::LinkResolver;
use mdast::rule::Rule;
use mdast::span::Span;
use mdast::traversal::{walk, NextAction};

fn span(rule: Rule, start: usize, end: usize, inner: Vec<Span>) -> Span {
    Span { rule, start, end, inner }
}

fn find(input: &str, text: &str) -> (usize, usize) {
    let s = input.find(text).expect("present");
    (s, s + text.len())
}

/// A tight bullet item "- text" whose text is found in `input` from `from` on.
fn bullet(input: &str, marker_at: usize, text: &str, extra: Vec<Span>) -> Span {
    let start = marker_at + input[marker_at..].find(text).expect("present");
    let end = start + text.len();
    let item_end = extra.last().map(|s| s.end).unwrap_or(end);
    let mut inner = vec![span(Rule::DashBullet, marker_at, marker_at + 1, vec![]), span(Rule::Str, start, end, vec![])];
    inner.extend(extra);
    span(Rule::ListItem, marker_at, item_end, inner)
}

#[test]
fn html_basic_test() {
    let input = "\n- Item one\n  - A sublist\n\n  - That's loose\n- Item two";
    let (a, _) = find(input, "- Item one");
    let (b, _) = find(input, "- A sublist");
    let (c, _) = find(input, "- That's loose");
    let (d, _) = find(input, "- Item two");
    let sub_a = bullet(input, b, "A sublist", vec![]);
    let sub_b = bullet(input, c, "That's loose", vec![]);
    let sublist = span(
        Rule::BulletList,
        b,
        sub_b.end,
        vec![span(Rule::ListLoose, b, sub_b.end, vec![sub_a, sub_b])],
    );
    let one = bullet(input, a, "Item one", vec![sublist]);
    let two = bullet(input, d, "Item two", vec![]);
    let list = span(
        Rule::BulletList,
        a,
        input.len(),
        vec![span(Rule::ListTight, a, input.len(), vec![one, two])],
    );
    let tokens = vec![span(Rule::Document, 0, input.len(), vec![list])];
    let document = parse_document(input, &tokens);
    println!("{document:#?}");
    println!("---------------------");
    let document = document.expect("the document builds");
    let mut html_renderer = HTMLRenderer::new();
    walk(&document, &mut html_renderer);
    let html = html_renderer.output().to_string();
    println!("{html}");
    assert_eq!(
        html,
        "<!DOCTYPE html><html><ul><li>Item one<ul><li><p>A sublist</p></li><li><p>That's loose</p></li></ul></li><li>Item two</li></ul></html>"
    );
}

#[test]
fn renders_headings_links_and_code() {
    let input = "## T\n[x](/u)\n```py\nz\n```";
    let heading = span(
        Rule::Header,
        0,
        4,
        vec![span(Rule::HeaderMarker, 0, 2, vec![]), span(Rule::Str, 3, 4, vec![])],
    );
    let link = span(
        Rule::Link,
        5,
        12,
        vec![span(Rule::Label, 6, 7, vec![span(Rule::Str, 6, 7, vec![])]), span(Rule::LinkDestination, 9, 11, vec![])],
    );
    let para = span(Rule::Paragraph, 5, 12, vec![link]);
    let code = span(
        Rule::FencedCodeblock,
        13,
        24,
        vec![span(Rule::InfoStringLanguage, 16, 18, vec![]), span(Rule::Str, 19, 20, vec![])],
    );
    let tokens = vec![span(Rule::Document, 0, 24, vec![heading, span(Rule::NormalEndline, 4, 5, vec![]), para, code])];
    let document = parse_document(input, &tokens).expect("the document builds");
    let mut r = HTMLRenderer::with_capacity(64);
    document.traverse(&mut r);
    assert_eq!(
        r.output(),
        "<!DOCTYPE html><html><h2>T</h2> <p><a href=\"/u\">x</a></p><pre><code class=\"language-py\">z</code></pre></html>"
    );
}

#[test]
fn links_follow_reference_definitions() {
    let input = "[n]: /def \"D\"\n[a](n)";
    let reference = span(
        Rule::Reference,
        0,
        13,
        vec![
            span(Rule::Label, 1, 2, vec![span(Rule::Str, 1, 2, vec![])]),
            span(Rule::LinkDestination, 5, 9, vec![]),
            span(Rule::LinkTitle, 10, 13, vec![]),
        ],
    );
    let link = span(
        Rule::Link,
        14,
        20,
        vec![span(Rule::Label, 15, 16, vec![span(Rule::Str, 15, 16, vec![])]), span(Rule::LinkDestination, 18, 19, vec![])],
    );
    let tokens = vec![span(Rule::Document, 0, 20, vec![reference, span(Rule::Paragraph, 14, 20, vec![link])])];
    let document = parse_document(input, &tokens).expect("the document builds");
    let mut resolver = LinkResolver::new();
    document.traverse(&mut resolver);
    let mut r = HTMLRenderer::with_resolver(resolver);
    document.traverse(&mut r);
    assert_eq!(
        r.output(),
        "<!DOCTYPE html><html>n<p><a href=\"/def\" title=\"\"D\"\">a</a></p></html>"
    );
}

#[test]
fn ordered_lists_carry_their_start() {
    let list = List {
        container: Container { children: Children(vec![]), span: "" },
        tight: true,
        ordered: true,
        start: 42,
    };
    let node = Node::List(list);
    let mut r = HTMLRenderer::new();
    node.traverse(&mut r);
    assert_eq!(r.output(), "<ol start=\"42\"></ol>");
    assert_eq!(decimal(0), "0");
    assert_eq!(decimal(4294967295), "4294967295");
}

#[test]
fn list_context_is_a_stack() {
    let tight = List { container: Container { children: Children(vec![]), span: "" }, tight: true, ordered: false, start: 1 };
    let loose = List { container: Container { children: Children(vec![]), span: "" }, tight: false, ordered: false, start: 3 };
    let mut ctx = GenerationContext::new();
    assert!(ctx.list_context().is_none());
    ctx.push_list_context(&tight);
    ctx.push_list_context(&loose);
    assert_eq!(ctx.list_context().map(|c| (c.tight, c.start)), Some((false, 3)));
    ctx.drop_list_context();
    assert_eq!(ctx.list_context().map(|c| (c.tight, c.start)), Some((true, 1)));
    ctx.drop_list_context();
    ctx.drop_list_context();
    assert!(ctx.list_context().is_none());
}

#[test]
fn list_item_outside_a_list_stops_rendering() {
    let item = Node::ListItem(ListItem { container: Container { children: Children(vec![]), span: "" }, index: 1 });
    let mut r = HTMLRenderer::new();
    assert_eq!(item.traverse(&mut r), NextAction::End);
    assert_eq!(r.output(), "");
    assert_eq!(RenderError::StateError("x".to_string()).message(), "StateError (x)");
}
