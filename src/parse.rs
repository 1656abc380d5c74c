use vstd::prelude::*;
use vstd::string::{StringExecFns, StringSliceAdditionalSpecFns};
use crate::build_model::build;
use crate::builder::{fails_with, gives};
use crate::error::ParseError;
use crate::model::Node;
use crate::rule::Rule;
use crate::span::{Span, check_spans};

verus! {

/// Builds the syntax tree of a span of `input` that the classifier reported at the top
/// level. Malformed spans (out of range, not on character boundaries, overlapping) are a
/// syntax error.
pub fn parse_rule<'a>(input: &'a str, tokens: &Vec<Span>) -> (r: Result<Node<'a>, ParseError>)
    ensures
        tokens@.len() == 0 ==> fails_with(r, "Missing required child in expression"@),
        tokens@.len() > 0 && !tokens@[0].wf(input.spec_bytes()) ==> fails_with(
            r,
            "Spans do not fit the input"@,
        ),
        tokens@.len() > 0 && tokens@[0].wf(input.spec_bytes()) ==> gives(
            r,
            build(input.spec_bytes(), tokens@[0]),
        ),
{
    if tokens.len() == 0 {
        return Err(ParseError::SyntaxError(String::from_str("Missing required child in expression")));
    }
    let root = &tokens[0];
    if !check_spans(input, root) {
        return Err(ParseError::SyntaxError(String::from_str("Spans do not fit the input")));
    }
    Node::try_from_span(input, root)
}

/// Builds the syntax tree of `input` from the spans the classifier found in it: the first
/// top-level span must be the document.
pub fn parse_document<'a>(input: &'a str, tokens: &Vec<Span>) -> (r: Result<Node<'a>, ParseError>)
    ensures
        tokens@.len() == 0 ==> fails_with(r, "Missing required child in expression"@),
        tokens@.len() > 0 && tokens@[0].rule != Rule::Document ==> fails_with(
            r,
            "Expected a document"@,
        ),
        tokens@.len() > 0 && tokens@[0].rule == Rule::Document && !tokens@[0].wf(
            input.spec_bytes(),
        ) ==> fails_with(r, "Spans do not fit the input"@),
        tokens@.len() > 0 && tokens@[0].rule == Rule::Document && tokens@[0].wf(
            input.spec_bytes(),
        ) ==> gives(r, build(input.spec_bytes(), tokens@[0])),
{
    if tokens.len() > 0 && tokens[0].rule != Rule::Document {
        return Err(ParseError::SyntaxError(String::from_str("Expected a document")));
    }
    parse_rule(input, tokens)
}

} // verus!
