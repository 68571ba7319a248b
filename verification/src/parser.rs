//! From source text to the abstract syntax tree.

use vstd::prelude::*;
pub use crate::ast::{ASTNode, Ast, BinaryOperator, UnaryOperator};
use crate::agreement::parse_outcomes;
use crate::ast::ast_seq;
pub use crate::builder::{
    build_ast_from_expression, build_ast_from_factor, build_ast_from_program, build_ast_from_stmt,
    build_ast_from_term, build_ast_from_toplvl,
};
use crate::builder::program_ast;
pub use crate::cst::{CstNode, Rule};
pub use crate::error::{BuildError, GrammarMismatch, ParseError};
use crate::grammar::grammar_match;
pub use crate::lexer::CParser;
pub use crate::literal::convert_str_to_int;
pub use crate::operator::{get_node_from_binary_operator, get_node_from_unary_operator};

verus! {

/// What a source text comes to. A text that the grammar does not match as a
/// program fails with the offset at which it stops matching. A text that it
/// does match comes to what its nodes build: its functions in source order,
/// or the error of the first function that has one.
pub open spec fn parse_result(source: Seq<char>) -> Result<Seq<Ast>, ParseError> {
    match grammar_match(Rule::program, source) {
        Err(failed) => Err(ParseError::Grammar(GrammarMismatch { position: failed as usize })),
        Ok(nodes) => match program_ast(nodes) {
            Err(e) => Err(ParseError::Build(e)),
            Ok(functions) => Ok(functions),
        },
    }
}

/// What `parse` returned, with the trees taken by their models.
pub open spec fn parsed_ast(r: Result<Vec<ASTNode>, ParseError>) -> Result<Seq<Ast>, ParseError> {
    match r {
        Ok(trees) => Ok(ast_seq(trees@)),
        Err(e) => Err(e),
    }
}

/// Reads a program: matches `source` against the grammar and builds the
/// abstract syntax tree of each of its functions, in source order. On any
/// failure no tree is returned.
///
/// Every tree is a well-formed function. The one failure of building that
/// a text can bring about is a literal that does not fit in 16 signed bits.
pub fn parse(source: &str) -> (r: Result<Vec<ASTNode>, ParseError>)
    ensures
        parsed_ast(r) == parse_result(source@),
        r matches Ok(trees) ==> forall|i: int|
            0 <= i < trees.len() ==> (#[trigger] trees[i]@) is Function && trees[i]@.well_formed(),
        r matches Err(ParseError::Build(e)) ==> e == BuildError::LiteralOutOfRange,
{
    proof {
        parse_outcomes(source@);
    }
    let pairs = match CParser::parse(Rule::program, source) {
        Ok(pairs) => pairs,
        Err(mismatch) => {
            return Err(ParseError::Grammar(mismatch));
        },
    };
    match build_ast_from_program(&pairs) {
        Ok(ast) => Ok(ast),
        Err(e) => Err(ParseError::Build(e)),
    }
}

} // verus!
