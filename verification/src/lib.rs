//! Reads cell libraries written in the Liberty format into a tree, and writes
//! such a tree back as text.

pub mod ast;
pub mod error;
pub mod grammar;
pub mod laws;
pub mod liberty;
pub mod locality;
pub mod parser;
pub mod query;
pub mod reader;
pub mod roundtrip;
pub mod serialize;
pub mod text;

pub use ast::{ParseResult, Value};
pub use error::Error;

use crate::ast::LibertyAst;
use crate::grammar::{lemma_libraries_are_blocks, libraries};
use crate::liberty::{built_all, Liberty};
use vstd::prelude::*;

verus! {

/// Parses a whole Liberty file into its structured form: what the grammar
/// finds in the input, every block of it converted. Where the grammar does
/// not accept the input, the error holds the input and the grammar's
/// failure.
pub fn parse_lib<'a>(contents: &'a str) -> (r: ParseResult<'a, Liberty>)
    ensures
        match libraries(contents@) {
            Ok(items) => r matches Ok(liberty) && liberty@ == built_all(items),
            Err(fault) => r matches Err(e) && e.0@ == contents@ && e.1@ == fault,
        },
{
    match LibertyAst::from_string(contents) {
        Ok(ast) => {
            proof {
                lemma_libraries_are_blocks(contents@);
            }
            Ok(Liberty::from_ast(ast))
        },
        Err(e) => Err(e),
    }
}

} // verus!
