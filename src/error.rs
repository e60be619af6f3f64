//! The error of the strict field parsers.
use vstd::prelude::*;

verus! {

/// A field did not match its strict grammar.
#[derive(Debug)]
pub struct ParsingError {
    pub message: &'static str,
}

} // verus!
