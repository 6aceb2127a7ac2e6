//! Parser for format strings whose placeholders carry wire types, such as
//! `"x = {:u8}, flags = {0:0..4}"`.
use vstd::prelude::*;

pub mod assign;
pub mod grammar;
pub mod laws;
pub mod lexer;
pub mod types;

pub use lexer::parse_usize;
pub use types::{Parameter, ParseError, Placeholder, Type};

verus! {

use crate::assign::assign_indices;
use crate::grammar::parsed;
use crate::lexer::scan_placeholders;
use vstd::string::StringSliceAdditionalSpecFns;

/// Parses a format string into its parameters, in the order in which they stand.
///
/// Spans are byte offsets into `format_string`. The first malformed construct fails the
/// whole parse.
pub fn parse(format_string: &str) -> (r: Result<Vec<Parameter>, ParseError>)
    ensures
        match r {
            Ok(v) => parsed(format_string.spec_bytes()) == Ok::<Seq<Parameter>, ParseError>(v@),
            Err(e) => parsed(format_string.spec_bytes()) == Err::<Seq<Parameter>, ParseError>(e),
        },
{
    match scan_placeholders(format_string.as_bytes()) {
        Err(e) => Err(e),
        Ok(placeholders) => assign_indices(placeholders),
    }
}

} // verus!
