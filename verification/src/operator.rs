//! From the text of an operator node to the operator.

use vstd::prelude::*;
use crate::ast::{BinaryOperator, UnaryOperator};
use crate::error::BuildError;
use crate::text::chars_of;

verus! {

/// The unary operator that a symbol stands for: `-` negates, `!` negates
/// logically, `~` complements. No other text is an operator.
pub open spec fn unary_operator_of(symbol: Seq<char>) -> Result<UnaryOperator, BuildError> {
    if symbol == seq!['-'] {
        Ok(UnaryOperator::Negation)
    } else if symbol == seq!['!'] {
        Ok(UnaryOperator::LogicalNeg)
    } else if symbol == seq!['~'] {
        Ok(UnaryOperator::Complement)
    } else {
        Err(BuildError::UnknownOperator)
    }
}

/// The binary operator that a symbol stands for: `+`, `-`, `*` or `/`.
/// No other text is an operator.
pub open spec fn binary_operator_of(symbol: Seq<char>) -> Result<BinaryOperator, BuildError> {
    if symbol == seq!['+'] {
        Ok(BinaryOperator::Add)
    } else if symbol == seq!['-'] {
        Ok(BinaryOperator::Subtract)
    } else if symbol == seq!['*'] {
        Ok(BinaryOperator::Multiply)
    } else if symbol == seq!['/'] {
        Ok(BinaryOperator::Divide)
    } else {
        Err(BuildError::UnknownOperator)
    }
}

/// A text is a given one-character symbol exactly when it has one character,
/// and that one.
proof fn one_symbol(text: Seq<char>, symbol: char)
    ensures
        text == seq![symbol] <==> text.len() == 1 && text[0] == symbol,
{
    assert(seq![symbol].len() == 1 && seq![symbol][0] == symbol);
    if text.len() == 1 && text[0] == symbol {
        assert(text =~= seq![symbol]);
    }
}

/// The one character of `text`, if it has exactly one.
fn single_char(text: &str) -> (c: Option<char>)
    ensures
        match c {
            Some(c) => text@.len() == 1 && text@[0] == c,
            None => text@.len() != 1,
        },
{
    let chars = chars_of(text);
    if chars.len() == 1 {
        Some(chars[0])
    } else {
        None
    }
}

/// Resolves the text of a unary operator node.
pub fn get_node_from_unary_operator(operator: &str) -> (r: Result<UnaryOperator, BuildError>)
    ensures
        r == unary_operator_of(operator@),
{
    proof {
        one_symbol(operator@, '-');
        one_symbol(operator@, '!');
        one_symbol(operator@, '~');
    }
    match single_char(operator) {
        Some('-') => Ok(UnaryOperator::Negation),
        Some('!') => Ok(UnaryOperator::LogicalNeg),
        Some('~') => Ok(UnaryOperator::Complement),
        _ => Err(BuildError::UnknownOperator),
    }
}

/// Resolves the text of a binary operator node.
pub fn get_node_from_binary_operator(operator: &str) -> (r: Result<BinaryOperator, BuildError>)
    ensures
        r == binary_operator_of(operator@),
{
    proof {
        one_symbol(operator@, '+');
        one_symbol(operator@, '-');
        one_symbol(operator@, '*');
        one_symbol(operator@, '/');
    }
    match single_char(operator) {
        Some('+') => Ok(BinaryOperator::Add),
        Some('-') => Ok(BinaryOperator::Subtract),
        Some('*') => Ok(BinaryOperator::Multiply),
        Some('/') => Ok(BinaryOperator::Divide),
        _ => Err(BuildError::UnknownOperator),
    }
}

} // verus!
