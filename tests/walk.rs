use mdast::model::Node;
use mdast::parse::parse_rule;
use mdast::resolver::LinkResolver;
use mdast::rule::Rule;
use mdast::span::Span;
use mdast::traversal::{walk, Direction, NextAction, Visitor};

fn span(rule: Rule, start: usize, end: usize, inner: Vec<Span>) -> Span {
    Span { rule, start, end, inner }
}

/// Records each visit as "+span" (entering) or "-span" (exiting), answering `End` when it
/// enters the node whose span is `stop_at`.
struct Recorder {
    log: Vec<String>,
    stop_at: Option<&'static str>,
}

impl<'a> Visitor<'a> for Recorder {
    fn visit(&mut self, node: &'a Node<'a>, direction: Direction) -> NextAction {
        let sign = match direction {
            Direction::Entering => "+",
            Direction::Exiting => "-",
        };
        self.log.push(format!("{sign}{}", node.as_span()));
        match (self.stop_at, direction) {
            (Some(s), Direction::Entering) if s == node.as_span() => NextAction::End,
            _ => NextAction::GotoNext,
        }
    }
}

/// "a *b* c" as paragraph > emphasis > text, with text around.
fn nested() -> (&'static str, Vec<Span>) {
    let input = "a *b* c";
    let tokens = vec![span(
        Rule::Paragraph,
        0,
        7,
        vec![
            span(Rule::Str, 0, 2, vec![]),
            span(Rule::Emphasis, 2, 5, vec![span(Rule::Str, 3, 4, vec![])]),
            span(Rule::Str, 5, 7, vec![]),
        ],
    )];
    (input, tokens)
}

#[test]
fn walk_brackets_every_container() {
    let (input, tokens) = nested();
    let root = parse_rule(input, &tokens).expect("the paragraph builds");
    let mut rec = Recorder { log: vec![], stop_at: None };
    let r = root.traverse(&mut rec);
    assert_eq!(r, NextAction::GotoNext);
    assert_eq!(rec.log, vec!["+a *b* c", "+a ", "+*b*", "+b", "-*b*", "+ c", "-a *b* c"]);
}

#[test]
fn end_skips_the_exits_of_ancestors() {
    let (input, tokens) = nested();
    let root = parse_rule(input, &tokens).expect("the paragraph builds");
    let mut rec = Recorder { log: vec![], stop_at: Some("*b*") };
    let r = walk(&root, &mut rec);
    assert_eq!(r, NextAction::End);
    assert_eq!(rec.log, vec!["+a *b* c", "+a ", "+*b*", "-*b*"]);
}

#[test]
fn later_reference_wins() {
    let input = "[n]: /one\n[n]: /two\n";
    let tokens = vec![span(
        Rule::Document,
        0,
        20,
        vec![
            span(
                Rule::Reference,
                0,
                9,
                vec![span(Rule::Label, 1, 2, vec![span(Rule::Str, 1, 2, vec![])]), span(Rule::LinkDestination, 5, 9, vec![])],
            ),
            span(
                Rule::Reference,
                10,
                19,
                vec![span(Rule::Label, 11, 12, vec![span(Rule::Str, 11, 12, vec![])]), span(Rule::LinkDestination, 15, 19, vec![])],
            ),
        ],
    )];
    let root = parse_rule(input, &tokens).expect("the document builds");
    let mut resolver = LinkResolver::new();
    root.traverse(&mut resolver);
    let found = resolver.resolve("n").expect("a definition");
    assert_eq!(found.source, "/two");
    assert!(resolver.resolve("m").is_none());
}
