//! The ways in which reading a program can fail.

use vstd::prelude::*;
use crate::cst::Rule;

verus! {

/// The source text does not match the grammar.
#[derive(Clone, Copy, Debug, PartialEq, Eq)]
pub struct GrammarMismatch {
    /// Offset, in characters, of the first character that the grammar could
    /// not accept (the length of the text where more text was expected).
    pub position: usize,
}

/// A syntax tree cannot be folded into an abstract syntax tree.
#[derive(Clone, Copy, Debug, PartialEq, Eq)]
pub enum BuildError {
    /// The tree has a shape that no rule of the builder accepts. `found` is
    /// the label of the node that stands in the wrong place, or `None` where
    /// a node was required and the run of nodes had ended.
    UnexpectedConstruct { found: Option<Rule> },
    /// An integer literal is well formed but does not fit in 16 signed bits.
    LiteralOutOfRange,
    /// The text of an integer literal is not a digit sequence of its base.
    LiteralMalformed,
    /// The text of an operator node is none of the known symbols.
    UnknownOperator,
}

/// Why `parse` produced no syntax tree.
#[derive(Clone, Copy, Debug, PartialEq, Eq)]
pub enum ParseError {
    /// The text does not match the grammar.
    Grammar(GrammarMismatch),
    /// The text matches the grammar, but the tree could not be built.
    Build(BuildError),
}

} // verus!
