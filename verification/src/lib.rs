//! An interactive evaluator for arithmetic expressions over integers.
//!
//! One line of text is turned into a value in three verified stages:
//! the lexer ([`lexer`]) produces a sequence of spanned tokens, the
//! parser ([`parser`]) builds a precedence-correct abstract syntax tree,
//! and the evaluator ([`interpreter`]) computes a 64-bit signed integer,
//! reporting arithmetic faults such as division by zero.

use vstd::prelude::*;

pub mod interpreter;
pub mod lexer;
pub mod parser;

verus! {

/// Command line options.
///
/// `use_compiler` selects the alternate consumer of the finished tree
/// (a postfix compiler) in place of the evaluator; it does not change
/// lexing or parsing.
#[derive(Debug, Clone, Copy, PartialEq, Eq)]
pub struct Opt {
    /// Use the postfix compiler instead of the evaluator.
    pub use_compiler: bool,
}

} // verus!
