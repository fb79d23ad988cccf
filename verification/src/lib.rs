//! Parses a curl command line into a structured request description: method, URL, headers
//! and body.
//!
//! [`parse`] is the entry point. It matches the text against the grammar of [`grammar`],
//! which gives a parse tree ([`CurlParser`], [`Pair`]), and walks the tree to collect the
//! request ([`Extractor`], [`CurlRequest`]). Nothing is run and nothing is read but the
//! text: only the method, header and data flags and the URL are known, whatever else the
//! command line holds is taken for one of these.
//!
//! Every function states what it returns over the mathematical model of its arguments;
//! [`laws`] states what follows for every text.

pub mod chars;
pub mod extract;
pub mod grammar;
pub mod laws;
pub mod parser;
pub mod request;

pub use crate::extract::{Extractor, ParseError};
pub use crate::grammar::Rule;
pub use crate::parser::{CurlParser, Pair, SyntaxError};
pub use crate::request::{CurlRequest, Headers};

use vstd::prelude::*;

verus! {

/// Parses a curl command line into the request that it describes.
pub fn parse(input: &str) -> (r: Result<CurlRequest, ParseError>)
    ensures
        crate::extract::outcome(r) == crate::extract::parse_spec(input@),
        r matches Ok(request) ==> request@.is_valid(),
{
    CurlRequest::parse_input(input)
}

} // verus!
