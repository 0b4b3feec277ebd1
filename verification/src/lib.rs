//! A tiny whitespace-delimited, stack-based scripting notation: a tokenizer
//! that turns source text into typed tokens, and an evaluator that executes
//! the token sequence against a single stack of signed 64-bit integers.
//!
//! All input and output of a run is modelled explicitly: the evaluator reads
//! lines from a queue supplied up front, writes characters to a growing
//! buffer, and looks environment variables up in a table handed to it, so one
//! run is a pure function from program text, input lines and environment to
//! the final stack and output.

pub mod token;
pub mod text;
pub mod diag;
pub mod lex;
pub mod machine;
pub mod eval;
pub mod laws;

use vstd::prelude::*;

verus! {

/// A digit is one of the ten ASCII decimal digit characters.
pub open spec fn is_ascii_digit(c: char) -> bool {
    '0' <= c && c <= '9'
}

} // verus!
