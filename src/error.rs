use vstd::prelude::*;
use vstd::string::{StringExecFns, StringSliceAdditionalSpecFns};
use vstd::utf8::is_char_boundary;
use crate::decimal::{decimal, decimal_chars};
use crate::span::{range_ok, slice, span_chars};

verus! {

/// Why a document could not be turned into a syntax tree.
#[derive(Debug, PartialEq, Eq)]
pub enum ParseError {
    /// The span classifier rejected the input; carries its diagnostic.
    TokenizationError(String),
    /// The spans could not be assembled into a valid tree: a required sub-span is missing,
    /// a tag is not the one expected there, or a number is malformed.
    SyntaxError(String),
}

impl ParseError {
    /// The error as a sentence for people.
    pub fn message(&self) -> (r: String)
        ensures
            self matches ParseError::TokenizationError(m) ==> r@
                == "Failed to lex input string to tokens: "@ + m@,
            self matches ParseError::SyntaxError(m) ==> r@
                == "Invalid structure found in document: "@ + m@,
    {
        match self {
            ParseError::TokenizationError(m) => String::from_str(
                "Failed to lex input string to tokens: ",
            ).concat(m.as_str()),
            ParseError::SyntaxError(m) => String::from_str(
                "Invalid structure found in document: ",
            ).concat(m.as_str()),
        }
    }
}

/// The 1-based line and column that pest reports for a byte offset of a text.
pub uninterp spec fn line_col_of(text: Seq<u8>, pos: int) -> (usize, usize);

/// Relies on pest::Position::new (`Some` exactly at a character boundary within the text)
/// and pest::Position::line_col (the line and column of that position).
#[verifier::external_body]
fn line_col(input: &str, pos: usize) -> (r: (usize, usize))
    requires
        is_char_boundary(input.spec_bytes(), pos as int),
    ensures
        r == line_col_of(input.spec_bytes(), pos as int),
{
    pest::Position::new(input, pos).unwrap().line_col()
}

/// The message of a syntax error about the span `[start, end)` of the text `b`: what is
/// wrong, the span's text, and the line and column where it begins.
pub open spec fn syntax_message(what: Seq<char>, b: Seq<u8>, start: int, end: int) -> Seq<char> {
    what + " \""@ + span_chars(b, start, end) + "\". Error occurred at: ("@ + decimal_chars(
        line_col_of(b, start).0 as nat,
    ) + ", "@ + decimal_chars(line_col_of(b, start).1 as nat) + ")"@
}

/// A syntax error that describes the span `[start, end)` of `input` and where it begins.
pub fn syntax_error(input: &str, what: &str, start: usize, end: usize) -> (e: ParseError)
    requires
        range_ok(input.spec_bytes(), start as int, end as int),
    ensures
        e matches ParseError::SyntaxError(m) && m@ == syntax_message(
            what@,
            input.spec_bytes(),
            start as int,
            end as int,
        ),
{
    let (line, col) = line_col(input, start);
    let msg = String::from_str(what).concat(" \"").concat(slice(input, start, end)).concat(
        "\". Error occurred at: (",
    ).concat(decimal(line).as_str()).concat(", ").concat(decimal(col).as_str()).concat(")");
    ParseError::SyntaxError(msg)
}

} // verus!
