//! What holds of every parse.

use vstd::prelude::*;
use crate::extract::{lemma_extracted_valid, outcome, parse_spec, ParseError};
use crate::grammar::command;
use crate::request::CurlRequest;

verus! {

/// Every text gives a valid request or a failure, and nothing in between: where parsing
/// succeeds, the request has a URL, its method is empty or in uppercase, and each of its
/// header names occurs once, trimmed like its value.
pub proof fn lemma_parse_valid(input: Seq<char>)
    ensures
        parse_spec(input) matches Ok(m) ==> m.is_valid(),
{
    match command(input) {
        Ok(root) => {
            lemma_extracted_valid(root);
        },
        Err(_) => {},
    }
}

/// Parsing is a function of the text: two parses of texts with the same characters give
/// the same request, part for part and header by header in the same order, or the same
/// failure.
pub proof fn lemma_parse_deterministic(
    a: &str,
    b: &str,
    first: Result<CurlRequest, ParseError>,
    second: Result<CurlRequest, ParseError>,
)
    requires
        a@ == b@,
        outcome(first) == parse_spec(a@),
        outcome(second) == parse_spec(b@),
    ensures
        outcome(first) == outcome(second),
        first is Ok <==> second is Ok,
{
}

} // verus!
