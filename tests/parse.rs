use mdast::error::ParseError;
use mdast::model::{Heading, List as ListNode, Node};
use mdast::parse::{parse_document, parse_rule};
use mdast::rule::Rule;
use mdast::span::Span;

fn span(rule: Rule, start: usize, end: usize, inner: Vec<Span>) -> Span {
    Span { rule, start, end, inner }
}

fn leaf(rule: Rule, start: usize, end: usize) -> Span {
    span(rule, start, end, vec![])
}

fn doc(input: &str, inner: Vec<Span>) -> Vec<Span> {
    vec![span(Rule::Document, 0, input.len(), inner)]
}

fn is_syntax_error<T>(r: &Result<T, ParseError>) -> bool {
    matches!(r, Err(ParseError::SyntaxError(_)))
}

fn children<'a, 'n>(n: &'n Node<'a>) -> &'n Vec<Node<'a>> {
    &n.children().expect("a container").0
}

/// An ordered list item `N. x` starting at `at`: marker, then one word.
fn ordered_item(at: usize) -> Span {
    span(
        Rule::ListItemTight,
        at,
        at + 4,
        vec![leaf(Rule::ListIndex, at, at + 1), leaf(Rule::Str, at + 3, at + 4)],
    )
}

#[test]
fn v2_basic_test() {
    let input = "![a link](g.co)";
    let tokens = doc(
        input,
        vec![span(
            Rule::Paragraph,
            0,
            15,
            vec![span(
                Rule::Image,
                0,
                15,
                vec![leaf(Rule::Label, 2, 8), leaf(Rule::LinkDestination, 10, 14)],
            )],
        )],
    );
    let document = parse_document(input, &tokens);
    println!("{document:?}");
    let document = document.expect("the document builds");
    let paragraph = &children(&document)[0];
    match &children(paragraph)[0] {
        Node::Image(image) => {
            assert_eq!(image.source, "g.co");
            assert_eq!(image.leaf.literal, "a link");
        }
        other => panic!("expected an image, got {other:?}"),
    }
}

#[test]
fn plaintext_children_become_one_text() {
    let input = "ab cd!";
    let tokens = vec![span(
        Rule::Paragraph,
        0,
        6,
        vec![
            leaf(Rule::Str, 0, 2),
            leaf(Rule::Space, 2, 3),
            leaf(Rule::Str, 3, 5),
            leaf(Rule::Symbol, 5, 6),
        ],
    )];
    let paragraph = parse_rule(input, &tokens).expect("the paragraph builds");
    let kids = children(&paragraph);
    assert_eq!(kids.len(), 1);
    match &kids[0] {
        Node::Text(t) => assert_eq!(t.literal, "ab cd!"),
        other => panic!("expected text, got {other:?}"),
    }
    assert_eq!(paragraph.as_span(), "ab cd!");
}

#[test]
fn markup_splits_plaintext_runs() {
    let input = "a *b* c";
    let tokens = vec![span(
        Rule::Paragraph,
        0,
        7,
        vec![
            leaf(Rule::Str, 0, 1),
            leaf(Rule::Space, 1, 2),
            span(Rule::Emphasis, 2, 5, vec![leaf(Rule::Str, 3, 4)]),
            leaf(Rule::Space, 5, 6),
            leaf(Rule::Str, 6, 7),
        ],
    )];
    let paragraph = parse_rule(input, &tokens).expect("the paragraph builds");
    let kids = children(&paragraph);
    assert_eq!(kids.len(), 3);
    assert!(matches!(&kids[0], Node::Text(t) if t.literal == "a "));
    match &kids[1] {
        Node::Emphasis(e) => {
            assert_eq!(e.span, "*b*");
            assert!(matches!(&e.children.0[0], Node::Text(t) if t.literal == "b"));
        }
        other => panic!("expected emphasis, got {other:?}"),
    }
    assert!(matches!(&kids[2], Node::Text(t) if t.literal == " c"));
}

#[test]
fn no_text_node_is_empty() {
    let input = "x";
    let tokens = vec![span(
        Rule::Paragraph,
        0,
        1,
        vec![leaf(Rule::Str, 0, 0), span(Rule::Strong, 0, 1, vec![leaf(Rule::Str, 0, 1)])],
    )];
    let paragraph = parse_rule(input, &tokens).expect("the paragraph builds");
    let kids = children(&paragraph);
    assert_eq!(kids.len(), 1);
    assert!(matches!(&kids[0], Node::Strong(_)));
    let empty = vec![leaf(Rule::Str, 0, 0)];
    assert!(is_syntax_error(&parse_rule(input, &empty)));
}

#[test]
fn list_numbering_increases() {
    let input = "1. a\n1. b\n1. c";
    let tokens = doc(
        input,
        vec![span(
            Rule::OrderedList,
            0,
            14,
            vec![span(
                Rule::ListTight,
                0,
                14,
                vec![ordered_item(0), leaf(Rule::NormalEndline, 4, 5), ordered_item(5), leaf(Rule::NormalEndline, 9, 10), ordered_item(10)],
            )],
        )],
    );
    let document = parse_document(input, &tokens).expect("the document builds");
    match &children(&document)[0] {
        Node::List(list) => {
            assert!(list.ordered);
            assert!(list.tight);
            assert_eq!(list.start, 1);
            let indices: Vec<u32> = list
                .container
                .children
                .0
                .iter()
                .filter_map(|n| match n {
                    Node::ListItem(li) => Some(li.index),
                    _ => None,
                })
                .collect();
            assert_eq!(indices, vec![1, 2, 3]);
        }
        other => panic!("expected a list, got {other:?}"),
    }
}

#[test]
fn list_keeps_higher_numbers_and_bullets_count() {
    let input = "5. a\n3. b\n- c";
    let bullet = span(
        Rule::ListItemTight,
        10,
        13,
        vec![leaf(Rule::DashBullet, 10, 11), leaf(Rule::Str, 12, 13)],
    );
    let tokens = vec![span(
        Rule::BulletList,
        0,
        13,
        vec![span(Rule::ListLoose, 0, 13, vec![ordered_item(0), ordered_item(5), bullet])],
    )];
    let list = parse_rule(input, &tokens).expect("the list builds");
    match &list {
        Node::List(l) => {
            assert!(!l.ordered);
            assert!(!l.tight);
            assert_eq!(l.start, 5);
            let idx: Vec<u32> = l
                .container
                .children
                .0
                .iter()
                .filter_map(|n| match n {
                    Node::ListItem(li) => Some(li.index),
                    _ => None,
                })
                .collect();
            assert_eq!(idx, vec![5, 6, 7]);
        }
        other => panic!("expected a list, got {other:?}"),
    }
}

#[test]
fn list_errors() {
    let input = "1. a";
    let no_form = vec![span(Rule::OrderedList, 0, 4, vec![])];
    assert!(is_syntax_error(&parse_rule(input, &no_form)));
    let wrong_form = vec![span(Rule::OrderedList, 0, 4, vec![span(Rule::Paragraph, 0, 4, vec![])])];
    assert!(is_syntax_error(&parse_rule(input, &wrong_form)));
    let bad_index = "x. a";
    let tokens = vec![span(
        Rule::ListItem,
        0,
        4,
        vec![leaf(Rule::ListIndex, 0, 1), leaf(Rule::Str, 3, 4)],
    )];
    assert!(is_syntax_error(&parse_rule(bad_index, &tokens)));
    let no_content = vec![span(Rule::ListItem, 0, 4, vec![leaf(Rule::ListIndex, 0, 1)])];
    assert!(is_syntax_error(&parse_rule(input, &no_content)));
    let huge = "4294967296. a";
    let tokens = vec![span(
        Rule::ListItem,
        0,
        13,
        vec![leaf(Rule::ListIndex, 0, 10), leaf(Rule::Str, 12, 13)],
    )];
    assert!(is_syntax_error(&parse_rule(huge, &tokens)));
}

#[test]
fn list_item_reads_plus_sign_and_zero() {
    let input = "+7. a";
    let tokens = vec![span(
        Rule::ListItem,
        0,
        5,
        vec![leaf(Rule::ListIndex, 0, 2), leaf(Rule::Str, 4, 5)],
    )];
    match parse_rule(input, &tokens).expect("the item builds") {
        Node::ListItem(li) => assert_eq!(li.index, 7),
        other => panic!("expected a list item, got {other:?}"),
    }
    let input = "0. a";
    let tokens = vec![span(
        Rule::ListItem,
        0,
        4,
        vec![leaf(Rule::ListIndex, 0, 1), leaf(Rule::Str, 3, 4)],
    )];
    match parse_rule(input, &tokens).expect("the item builds") {
        Node::ListItem(li) => assert_eq!(li.index, 1),
        other => panic!("expected a list item, got {other:?}"),
    }
}

#[test]
fn autolink_refers_to_itself() {
    let input = "<http://x.io>";
    let tokens = vec![span(
        Rule::Link,
        0,
        13,
        vec![span(Rule::Label, 1, 12, vec![leaf(Rule::Source, 1, 12)])],
    )];
    match parse_rule(input, &tokens).expect("the link builds") {
        Node::Link(link) => {
            assert_eq!(link.source, "http://x.io");
            assert_eq!(link.title, None);
            assert!(matches!(&link.container.children.0[0], Node::Text(t) if t.literal == "http://x.io"));
        }
        other => panic!("expected a link, got {other:?}"),
    }
}

#[test]
fn directed_link_without_title() {
    let input = "[t](http://x.io)";
    let tokens = vec![span(
        Rule::Link,
        0,
        16,
        vec![
            span(Rule::Label, 1, 2, vec![leaf(Rule::Str, 1, 2)]),
            leaf(Rule::LinkDestination, 4, 15),
        ],
    )];
    match parse_rule(input, &tokens).expect("the link builds") {
        Node::Link(link) => {
            assert_eq!(link.source, "http://x.io");
            assert_eq!(link.title, None);
            assert_eq!(link.container.span, input);
            assert!(matches!(&link.container.children.0[0], Node::Text(t) if t.literal == "t"));
        }
        other => panic!("expected a link, got {other:?}"),
    }
}

#[test]
fn reference_with_title() {
    let input = "[n]: /u \"T\"";
    let tokens = vec![span(
        Rule::Reference,
        0,
        11,
        vec![
            span(Rule::Label, 1, 2, vec![leaf(Rule::Str, 1, 2)]),
            leaf(Rule::LinkDestination, 5, 7),
            leaf(Rule::LinkTitle, 8, 11),
        ],
    )];
    match parse_rule(input, &tokens).expect("the reference builds") {
        Node::Reference(r) => {
            assert_eq!(r.name, "n");
            assert_eq!(r.source, "/u");
            assert_eq!(r.title, Some("\"T\""));
        }
        other => panic!("expected a reference, got {other:?}"),
    }
    let no_label = vec![span(Rule::Link, 0, 11, vec![])];
    assert!(is_syntax_error(&parse_rule(input, &no_label)));
}

#[test]
fn image_without_destination_is_syntax_error() {
    let input = "![alt]";
    let tokens = vec![span(Rule::Image, 0, 6, vec![leaf(Rule::Label, 2, 5)])];
    let r = parse_rule(input, &tokens);
    assert!(is_syntax_error(&r));
    if let Err(ParseError::SyntaxError(msg)) = r {
        assert!(msg.contains("(1, 1)"), "{msg}");
    }
    let nothing = vec![span(Rule::Image, 0, 6, vec![])];
    assert!(is_syntax_error(&parse_rule(input, &nothing)));
}

#[test]
fn heading_level_and_errors() {
    let input = "## Hi";
    let tokens = vec![span(
        Rule::Header,
        0,
        5,
        vec![leaf(Rule::HeaderMarker, 0, 2), leaf(Rule::Space, 2, 3), leaf(Rule::Str, 3, 5)],
    )];
    match parse_rule(input, &tokens).expect("the heading builds") {
        Node::Heading(h) => {
            assert_eq!(h.level, 2);
            assert!(matches!(&h.container.children.0[0], Node::Text(t) if t.literal == " Hi"));
        }
        other => panic!("expected a heading, got {other:?}"),
    }
    let no_marker = vec![span(Rule::Header, 0, 5, vec![])];
    assert!(is_syntax_error(&parse_rule(input, &no_marker)));
    let no_title = vec![span(Rule::Header, 0, 5, vec![leaf(Rule::HeaderMarker, 0, 2)])];
    assert!(is_syntax_error(&parse_rule(input, &no_title)));
    let deep = "####### x";
    let tokens = vec![span(
        Rule::Header,
        0,
        9,
        vec![leaf(Rule::HeaderMarker, 0, 7), leaf(Rule::Str, 8, 9)],
    )];
    assert!(is_syntax_error(&parse_rule(deep, &tokens)));
}

#[test]
fn code_blocks() {
    let input = "```rust\n  let x;\n```";
    let tokens = vec![span(
        Rule::FencedCodeblock,
        0,
        20,
        vec![leaf(Rule::InfoStringLanguage, 3, 7), leaf(Rule::Str, 8, 16)],
    )];
    match parse_rule(input, &tokens).expect("the block builds") {
        Node::CodeBlock(cb) => {
            assert_eq!(cb.language, Some("rust"));
            assert!(matches!(&cb.container.children.0[0], Node::Text(t) if t.literal == "  let x;"));
        }
        other => panic!("expected a code block, got {other:?}"),
    }
    let input = "    code";
    let tokens = vec![span(Rule::IndentedCodeblock, 0, 8, vec![leaf(Rule::Str, 4, 8)])];
    match parse_rule(input, &tokens).expect("the block builds") {
        Node::CodeBlock(cb) => {
            assert_eq!(cb.language, None);
            assert!(matches!(&cb.container.children.0[0], Node::Text(t) if t.literal == "code"));
        }
        other => panic!("expected a code block, got {other:?}"),
    }
}

#[test]
fn malformed_input_is_rejected() {
    let input = "abc";
    assert!(is_syntax_error(&parse_document(input, &vec![])));
    let out_of_range = vec![span(Rule::Document, 0, 9, vec![])];
    assert!(is_syntax_error(&parse_document(input, &out_of_range)));
    let overlapping = vec![span(
        Rule::Document,
        0,
        3,
        vec![leaf(Rule::Str, 0, 2), leaf(Rule::Str, 1, 3)],
    )];
    assert!(is_syntax_error(&parse_document(input, &overlapping)));
    let not_document = vec![span(Rule::Paragraph, 0, 3, vec![])];
    assert!(is_syntax_error(&parse_document(input, &not_document)));
    let unknown = vec![leaf(Rule::ListIndex, 0, 1)];
    assert!(is_syntax_error(&parse_rule(input, &unknown)));
    let split_char = "é";
    let inside = vec![leaf(Rule::Str, 0, 1)];
    assert!(is_syntax_error(&parse_rule(split_char, &inside)));
}

#[test]
fn leaves_and_sentinel() {
    let input = "a  \nb";
    let tokens = doc(
        input,
        vec![
            leaf(Rule::Str, 0, 1),
            leaf(Rule::Linebreak, 1, 4),
            leaf(Rule::Str, 4, 5),
            leaf(Rule::Eoi, 5, 5),
        ],
    );
    let document = parse_document(input, &tokens).expect("the document builds");
    let kids = children(&document);
    assert_eq!(kids.len(), 4);
    assert!(matches!(&kids[1], Node::Linebreak(l) if l.literal == "  \n"));
    assert!(matches!(&kids[3], Node::EOI));
    assert_eq!(kids[3].as_span(), "EOI");
    assert!(kids[3].children().is_none());
    assert!(kids[0].children().is_none());
}

#[test]
fn error_names_line_and_column() {
    let input = "x\nab ![alt]";
    let tokens = vec![span(
        Rule::Document,
        0,
        11,
        vec![leaf(Rule::Str, 0, 1), leaf(Rule::NormalEndline, 1, 2), span(Rule::Image, 5, 11, vec![leaf(Rule::Label, 7, 10)])],
    )];
    match parse_document(input, &tokens) {
        Err(ParseError::SyntaxError(msg)) => {
            assert_eq!(msg, "No source found for image in \"![alt]\". Error occurred at: (2, 4)");
        }
        other => panic!("expected a syntax error, got {other:?}"),
    }
}

#[test]
fn error_messages() {
    let e = ParseError::SyntaxError("bad".to_string());
    assert_eq!(e.message(), "Invalid structure found in document: bad");
    let e = ParseError::TokenizationError("no".to_string());
    assert_eq!(e.message(), "Failed to lex input string to tokens: no");
}

#[test]
fn plaintext_tags() {
    assert!(Rule::Str.is_plaintext());
    assert!(Rule::NonSpace.is_plaintext());
    assert!(!Rule::LinebreakLiteral.is_plaintext());
    assert!(!Rule::Emphasis.is_plaintext());
    assert_eq!(Rule::Eoi.name(), "EOI");
}

#[test]
fn children_can_be_taken_out() {
    let input = "a *b*";
    let tokens = vec![span(
        Rule::Paragraph,
        0,
        5,
        vec![leaf(Rule::Str, 0, 2), span(Rule::Emphasis, 2, 5, vec![leaf(Rule::Str, 3, 4)])],
    )];
    let mut paragraph = parse_rule(input, &tokens).expect("the paragraph builds");
    let last = paragraph.children_mut().expect("a container").0.pop();
    assert!(matches!(last, Some(Node::Emphasis(_))));
    assert_eq!(children(&paragraph).len(), 1);
    assert_eq!(paragraph.as_span(), "a *b*");
    let mut text = Node::EOI;
    assert!(text.children_mut().is_none());
}

#[test]
fn list_numbering_past_the_largest_index_is_an_error() {
    let input = "4294967295. a\n1. b";
    let first = span(
        Rule::ListItemTight,
        0,
        13,
        vec![leaf(Rule::ListIndex, 0, 10), leaf(Rule::Str, 12, 13)],
    );
    let second = span(
        Rule::ListItemTight,
        14,
        18,
        vec![leaf(Rule::ListIndex, 14, 15), leaf(Rule::Str, 17, 18)],
    );
    let tokens = vec![span(
        Rule::OrderedList,
        0,
        18,
        vec![span(Rule::ListTight, 0, 18, vec![first, second])],
    )];
    assert!(is_syntax_error(&parse_rule(input, &tokens)));
}

fn message<T: std::fmt::Debug>(r: Result<T, ParseError>) -> String {
    match r {
        Err(ParseError::SyntaxError(m)) => m,
        other => panic!("expected a syntax error, got {other:?}"),
    }
}

#[test]
fn sub_builders_refuse_other_tags() {
    let input = "ab";
    let s = leaf(Rule::Paragraph, 0, 2);
    assert_eq!(
        message(ListNode::try_from_span(input, &s)),
        "Expected a list node for \"ab\". Error occurred at: (1, 1)"
    );
    assert_eq!(
        message(Heading::try_from_span(input, &s)),
        "Expected a heading in \"ab\". Error occurred at: (1, 1)"
    );
}

#[test]
fn heading_errors_are_told_apart() {
    let input = "## Hi";
    let no_marker = vec![span(Rule::Header, 0, 5, vec![])];
    assert_eq!(
        message(parse_rule(input, &no_marker)),
        "No header markers found in \"## Hi\". Error occurred at: (1, 1)"
    );
    let no_title = vec![span(Rule::Header, 0, 5, vec![leaf(Rule::HeaderMarker, 0, 2)])];
    assert_eq!(
        message(parse_rule(input, &no_title)),
        "No title found in \"## Hi\". Error occurred at: (1, 1)"
    );
}

#[test]
fn unknown_tag_names_itself() {
    let input = "x\n 1";
    let tokens = vec![leaf(Rule::ListIndex, 3, 4)];
    assert_eq!(
        message(parse_rule(input, &tokens)),
        "Failed to find a node to represent a list_index \"1\". Error occurred at: (2, 2)"
    );
}

#[test]
fn bad_list_number_carries_the_conversion_error() {
    let input = "99999999999. a";
    let tokens = vec![span(
        Rule::ListItem,
        0,
        14,
        vec![leaf(Rule::ListIndex, 0, 11), leaf(Rule::Str, 13, 14)],
    )];
    let expected = "99999999999".parse::<u32>().unwrap_err().to_string();
    assert_eq!(message(parse_rule(input, &tokens)), expected);
}

#[test]
fn child_error_comes_back_unchanged() {
    let input = "a ![x]";
    let image = span(Rule::Image, 2, 6, vec![leaf(Rule::Label, 4, 5)]);
    let alone = message(parse_rule(input, &vec![span(Rule::Image, 2, 6, vec![leaf(Rule::Label, 4, 5)])]));
    let tokens = vec![span(Rule::Paragraph, 0, 6, vec![leaf(Rule::Str, 0, 2), image])];
    assert_eq!(message(parse_rule(input, &tokens)), alone);
}
