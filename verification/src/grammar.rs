//! The grammar, as a definition of what each rule matches.
//!
//! ```text
//! program           = function* EOI
//! function          = datatype identifier "(" ")" "{" return_stmt* "}"
//! datatype          = "int"
//! identifier        = (letter | "_") (letter | digit | "_")*
//! return_stmt       = "return" expression ";"
//! expression        = term (additive_operator term)*
//! term              = factor
//! factor            = unary_operator term | number
//! unary_operator    = "-" | "!" | "~"
//! additive_operator = "+" | "-"
//! number            = "0b" binary digit+ | "0x" hexadecimal digit+ | decimal digit+
//! ```
//!
//! Blanks, tabs and line ends may stand before each item of `program`, and
//! between any two items of `function`, `return_stmt`, `expression` and
//! `factor`; nowhere else. The words `int` and `return` end where a letter,
//! a digit or `_` would go on. A repetition goes on for as long as its
//! closing item is not there (the end of the text, `}`) or its opening item
//! is (an additive operator), so a rule fails at the first character that
//! it cannot accept.
//!
//! A rule is matched at an offset into the text, counted in characters, and
//! gives the node that it matched with the offset behind it, or the offset
//! at which it failed.

use vstd::prelude::*;
use crate::cst::{Cst, Rule};
use crate::literal::is_digit;

verus! {

/// Blank, tab, line feed and carriage return.
pub open spec fn is_whitespace(c: char) -> bool {
    c == ' ' || c == '\t' || c == '\n' || c == '\r'
}

/// The letters of ASCII, of either case.
pub open spec fn is_letter(c: char) -> bool {
    'a' <= c <= 'z' || 'A' <= c <= 'Z'
}

/// The characters that words are made of.
pub open spec fn is_word_char(c: char) -> bool {
    is_letter(c) || '0' <= c <= '9' || c == '_'
}

/// The symbols of the unary operators.
pub open spec fn is_unary_symbol(c: char) -> bool {
    c == '-' || c == '!' || c == '~'
}

/// The symbols of the additive operators.
pub open spec fn is_additive_symbol(c: char) -> bool {
    c == '+' || c == '-'
}

/// Whether the character `c` stands at offset `at`.
pub open spec fn has_char(s: Seq<char>, at: int, c: char) -> bool {
    0 <= at < s.len() && s[at] == c
}

/// Whether `text` stands at offset `at`.
pub open spec fn has_text(s: Seq<char>, at: int, text: Seq<char>) -> bool {
    0 <= at && at + text.len() <= s.len() && s.subrange(at, at + text.len()) == text
}

/// Whether `word` stands at offset `at` and ends there.
pub open spec fn has_word(s: Seq<char>, at: int, word: Seq<char>) -> bool {
    has_text(s, at, word) && !(at + word.len() < s.len() && is_word_char(s[at + word.len()]))
}

/// The first offset from `at` on that holds no whitespace.
pub open spec fn skip_whitespace(s: Seq<char>, at: int) -> int
    decreases s.len() - at,
{
    if 0 <= at < s.len() && is_whitespace(s[at]) {
        skip_whitespace(s, at + 1)
    } else {
        at
    }
}

/// The first offset from `at` on that holds no digit of base `radix`.
pub open spec fn digits_end(s: Seq<char>, at: int, radix: int) -> int
    decreases s.len() - at,
{
    if 0 <= at < s.len() && is_digit(s[at], radix) {
        digits_end(s, at + 1, radix)
    } else {
        at
    }
}

/// The first offset from `at` on that holds no character of a word.
pub open spec fn word_end(s: Seq<char>, at: int) -> int
    decreases s.len() - at,
{
    if 0 <= at < s.len() && is_word_char(s[at]) {
        word_end(s, at + 1)
    } else {
        at
    }
}

/// Skipping whitespace goes forward, and not beyond the text.
pub proof fn skip_whitespace_bounds(s: Seq<char>, at: int)
    ensures
        at <= skip_whitespace(s, at),
        at <= s.len() ==> skip_whitespace(s, at) <= s.len(),
    decreases s.len() - at,
{
    if 0 <= at < s.len() && is_whitespace(s[at]) {
        skip_whitespace_bounds(s, at + 1);
    }
}

/// A run of digits ends behind where it began, and within the text.
pub proof fn digits_end_bounds(s: Seq<char>, at: int, radix: int)
    ensures
        at <= digits_end(s, at, radix),
        at <= s.len() ==> digits_end(s, at, radix) <= s.len(),
    decreases s.len() - at,
{
    if 0 <= at < s.len() && is_digit(s[at], radix) {
        digits_end_bounds(s, at + 1, radix);
    }
}

/// A word ends behind where it began, and within the text.
pub proof fn word_end_bounds(s: Seq<char>, at: int)
    ensures
        at <= word_end(s, at),
        at <= s.len() ==> word_end(s, at) <= s.len(),
    decreases s.len() - at,
{
    if 0 <= at < s.len() && is_word_char(s[at]) {
        word_end_bounds(s, at + 1);
    }
}

/// The node of `rule` for the text from `from` to `to`.
pub open spec fn node(rule: Rule, s: Seq<char>, from: int, to: int, children: Seq<Cst>) -> Cst {
    Cst { rule, text: s.subrange(from, to), children }
}

/// The node of `rule` for the text from `from` to `to`, without children.
pub open spec fn leaf(rule: Rule, s: Seq<char>, from: int, to: int) -> Cst {
    node(rule, s, from, to, Seq::empty())
}

/// Where the number at `at` ends, if one stands there. The prefix of a base
/// counts only with a digit of that base behind it: `0b2` is the number `0`.
pub open spec fn number_end(s: Seq<char>, at: int) -> Option<int> {
    if has_text(s, at, seq!['0', 'b']) && digits_end(s, at + 2, 2) > at + 2 {
        Some(digits_end(s, at + 2, 2))
    } else if has_text(s, at, seq!['0', 'x']) && digits_end(s, at + 2, 16) > at + 2 {
        Some(digits_end(s, at + 2, 16))
    } else if digits_end(s, at, 10) > at {
        Some(digits_end(s, at, 10))
    } else {
        None
    }
}

/// A number: digits, behind `0b` or `0x` in base 2 or 16, else in base 10.
pub open spec fn match_number(s: Seq<char>, at: int) -> Result<(Cst, int), int> {
    match number_end(s, at) {
        Some(end) => Ok((leaf(Rule::number, s, at, end), end)),
        None => Err(at),
    }
}

/// A unary operator: one of its symbols.
pub open spec fn match_unary_operator(s: Seq<char>, at: int) -> Result<(Cst, int), int> {
    if 0 <= at < s.len() && is_unary_symbol(s[at]) {
        Ok((leaf(Rule::unary_operator, s, at, at + 1), at + 1))
    } else {
        Err(at)
    }
}

/// An additive operator: one of its symbols.
pub open spec fn match_additive_operator(s: Seq<char>, at: int) -> Result<(Cst, int), int> {
    if 0 <= at < s.len() && is_additive_symbol(s[at]) {
        Ok((leaf(Rule::additive_operator, s, at, at + 1), at + 1))
    } else {
        Err(at)
    }
}

/// A return type: the word `int`.
pub open spec fn match_datatype(s: Seq<char>, at: int) -> Result<(Cst, int), int> {
    if has_word(s, at, "int"@) {
        Ok((leaf(Rule::datatype, s, at, at + "int"@.len()), at + "int"@.len()))
    } else {
        Err(at)
    }
}

/// A name: a letter or `_`, and the word characters that follow it.
pub open spec fn match_identifier(s: Seq<char>, at: int) -> Result<(Cst, int), int> {
    if 0 <= at < s.len() && (is_letter(s[at]) || s[at] == '_') {
        Ok((leaf(Rule::identifier, s, at, word_end(s, at)), word_end(s, at)))
    } else {
        Err(at)
    }
}

/// A factor: a unary operator and the term that it applies to, or else a
/// number.
pub open spec fn match_factor(s: Seq<char>, at: int) -> Result<(Cst, int), int>
    decreases s.len() - at, 0nat,
{
    if 0 <= at < s.len() && is_unary_symbol(s[at]) {
        proof {
            skip_whitespace_bounds(s, at + 1);
        }
        match match_term(s, skip_whitespace(s, at + 1)) {
            Err(failed) => Err(failed),
            Ok((term, end)) => Ok(
                (
                    node(
                        Rule::factor,
                        s,
                        at,
                        end,
                        seq![leaf(Rule::unary_operator, s, at, at + 1), term],
                    ),
                    end,
                ),
            ),
        }
    } else {
        match match_number(s, at) {
            Err(failed) => Err(failed),
            Ok((number, end)) => Ok((node(Rule::factor, s, at, end, seq![number]), end)),
        }
    }
}

/// A term: one factor.
pub open spec fn match_term(s: Seq<char>, at: int) -> Result<(Cst, int), int>
    decreases s.len() - at, 1nat,
{
    match match_factor(s, at) {
        Err(failed) => Err(failed),
        Ok((factor, end)) => Ok((node(Rule::term, s, at, end, seq![factor]), end)),
    }
}

/// A term or a factor that matches ends behind where it began, and within
/// the text; one that fails, fails there or further on.
pub proof fn term_advances(s: Seq<char>, at: int)
    ensures
        match_term(s, at) matches Ok((_, end)) ==> 0 <= at < end <= s.len(),
        match_factor(s, at) matches Ok((_, end)) ==> 0 <= at < end <= s.len(),
        match_term(s, at) matches Err(failed) ==> at <= failed && (at <= s.len() ==> failed
            <= s.len()),
        match_factor(s, at) matches Err(failed) ==> at <= failed && (at <= s.len() ==> failed
            <= s.len()),
    decreases s.len() - at,
{
    reveal_with_fuel(match_term, 2);
    if 0 <= at < s.len() && is_unary_symbol(s[at]) {
        skip_whitespace_bounds(s, at + 1);
        term_advances(s, skip_whitespace(s, at + 1));
    } else {
        digits_end_bounds(s, at, 10);
        digits_end_bounds(s, at + 2, 2);
        digits_end_bounds(s, at + 2, 16);
    }
}

/// The rest of an expression behind its first term: for as long as an
/// additive operator follows, the operator and the term behind it are added
/// to `children`. Gives the children and the offset behind the last term.
pub open spec fn additive_tail(s: Seq<char>, at: int, children: Seq<Cst>) -> Result<
    (Seq<Cst>, int),
    int,
>
    decreases s.len() - at,
{
    let symbol = skip_whitespace(s, at);
    if 0 <= symbol < s.len() && is_additive_symbol(s[symbol]) {
        proof {
            skip_whitespace_bounds(s, at);
            skip_whitespace_bounds(s, symbol + 1);
            term_advances(s, skip_whitespace(s, symbol + 1));
        }
        match match_term(s, skip_whitespace(s, symbol + 1)) {
            Err(failed) => Err(failed),
            Ok((term, end)) => additive_tail(
                s,
                end,
                children.push(leaf(Rule::additive_operator, s, symbol, symbol + 1)).push(term),
            ),
        }
    } else {
        Ok((children, at))
    }
}

/// An expression: terms with additive operators between them.
pub open spec fn match_expression(s: Seq<char>, at: int) -> Result<(Cst, int), int> {
    match match_term(s, at) {
        Err(failed) => Err(failed),
        Ok((term, behind)) => match additive_tail(s, behind, seq![term]) {
            Err(failed) => Err(failed),
            Ok((children, end)) => Ok((node(Rule::expression, s, at, end, children), end)),
        },
    }
}

/// A return statement: the word `return`, an expression and `;`.
pub open spec fn match_return_stmt(s: Seq<char>, at: int) -> Result<(Cst, int), int> {
    if !has_word(s, at, "return"@) {
        Err(at)
    } else {
        match match_expression(s, skip_whitespace(s, at + "return"@.len())) {
            Err(failed) => Err(failed),
            Ok((expression, behind)) => {
                let semicolon = skip_whitespace(s, behind);
                if has_char(s, semicolon, ';') {
                    Ok(
                        (
                            node(Rule::return_stmt, s, at, semicolon + 1, seq![expression]),
                            semicolon + 1,
                        ),
                    )
                } else {
                    Err(semicolon)
                }
            },
        }
    }
}

/// The rest of an expression ends, or fails, at its beginning or further
/// on, and within the text.
pub proof fn additive_tail_advances(s: Seq<char>, at: int, children: Seq<Cst>)
    requires
        0 <= at <= s.len(),
    ensures
        additive_tail(s, at, children) matches Ok((_, end)) ==> at <= end <= s.len(),
        additive_tail(s, at, children) matches Err(failed) ==> at <= failed <= s.len(),
    decreases s.len() - at,
{
    let symbol = skip_whitespace(s, at);
    skip_whitespace_bounds(s, at);
    if 0 <= symbol < s.len() && is_additive_symbol(s[symbol]) {
        skip_whitespace_bounds(s, symbol + 1);
        term_advances(s, skip_whitespace(s, symbol + 1));
        if let Ok((term, end)) = match_term(s, skip_whitespace(s, symbol + 1)) {
            additive_tail_advances(
                s,
                end,
                children.push(leaf(Rule::additive_operator, s, symbol, symbol + 1)).push(term),
            );
        }
    }
}

/// An expression or a statement that matches ends behind where it began,
/// and within the text; one that fails, fails there or further on.
pub proof fn statement_advances(s: Seq<char>, at: int)
    ensures
        match_expression(s, at) matches Ok((_, end)) ==> 0 <= at < end <= s.len(),
        match_expression(s, at) matches Err(failed) ==> at <= failed && (at <= s.len()
            ==> failed <= s.len()),
        match_return_stmt(s, at) matches Ok((_, end)) ==> 0 <= at < end <= s.len(),
        match_return_stmt(s, at) matches Err(failed) ==> at <= failed && (at <= s.len()
            ==> failed <= s.len()),
{
    term_advances(s, at);
    if let Ok((term, behind)) = match_term(s, at) {
        additive_tail_advances(s, behind, seq![term]);
    }
    if has_word(s, at, "return"@) {
        let start = skip_whitespace(s, at + "return"@.len());
        skip_whitespace_bounds(s, at + "return"@.len());
        term_advances(s, start);
        if let Ok((term, behind)) = match_term(s, start) {
            additive_tail_advances(s, behind, seq![term]);
            if let Ok((_, end)) = additive_tail(s, behind, seq![term]) {
                skip_whitespace_bounds(s, end);
            }
        }
    }
}

/// The statements of a function: for as long as neither `}` nor the end of
/// the text follows, a statement is added to `children`. Gives the children
/// and the offset at which the statements end.
pub open spec fn statements_tail(s: Seq<char>, at: int, children: Seq<Cst>) -> Result<
    (Seq<Cst>, int),
    int,
>
    decreases s.len() - at,
{
    let next = skip_whitespace(s, at);
    if 0 <= next < s.len() && s[next] != '}' {
        proof {
            skip_whitespace_bounds(s, at);
            statement_advances(s, next);
        }
        match match_return_stmt(s, next) {
            Err(failed) => Err(failed),
            Ok((statement, end)) => statements_tail(s, end, children.push(statement)),
        }
    } else {
        Ok((children, next))
    }
}

/// A function: its return type, its name, `(`, `)`, and its statements
/// between `{` and `}`.
pub open spec fn match_function(s: Seq<char>, at: int) -> Result<(Cst, int), int> {
    match match_datatype(s, at) {
        Err(failed) => Err(failed),
        Ok((datatype, behind_type)) => match match_identifier(s, skip_whitespace(s, behind_type)) {
            Err(failed) => Err(failed),
            Ok((identifier, behind_name)) => {
                let opening = skip_whitespace(s, behind_name);
                let closing = skip_whitespace(s, opening + 1);
                let brace = skip_whitespace(s, closing + 1);
                if !has_char(s, opening, '(') {
                    Err(opening)
                } else if !has_char(s, closing, ')') {
                    Err(closing)
                } else if !has_char(s, brace, '{') {
                    Err(brace)
                } else {
                    match statements_tail(s, brace + 1, seq![datatype, identifier]) {
                        Err(failed) => Err(failed),
                        Ok((children, end)) => if has_char(s, end, '}') {
                            Ok((node(Rule::function, s, at, end + 1, children), end + 1))
                        } else {
                            Err(end)
                        },
                    }
                }
            },
        },
    }
}

/// The statements of a function end, or fail, at their beginning or further
/// on, and within the text.
pub proof fn statements_tail_advances(s: Seq<char>, at: int, children: Seq<Cst>)
    requires
        0 <= at <= s.len(),
    ensures
        statements_tail(s, at, children) matches Ok((_, end)) ==> at <= end <= s.len(),
        statements_tail(s, at, children) matches Err(failed) ==> at <= failed <= s.len(),
    decreases s.len() - at,
{
    let next = skip_whitespace(s, at);
    skip_whitespace_bounds(s, at);
    if 0 <= next < s.len() && s[next] != '}' {
        statement_advances(s, next);
        if let Ok((statement, end)) = match_return_stmt(s, next) {
            statements_tail_advances(s, end, children.push(statement));
        }
    }
}

/// A function that matches ends behind where it began, and within the
/// text; one that fails, fails there or further on.
pub proof fn function_advances(s: Seq<char>, at: int)
    ensures
        match_function(s, at) matches Ok((_, end)) ==> 0 <= at < end <= s.len(),
        match_function(s, at) matches Err(failed) ==> at <= failed && (at <= s.len() ==> failed
            <= s.len()),
{
    if let Ok((datatype, behind_type)) = match_datatype(s, at) {
        skip_whitespace_bounds(s, behind_type);
        let name = skip_whitespace(s, behind_type);
        if let Ok((identifier, behind_name)) = match_identifier(s, name) {
            word_end_bounds(s, name);
            let opening = skip_whitespace(s, behind_name);
            let closing = skip_whitespace(s, opening + 1);
            let brace = skip_whitespace(s, closing + 1);
            skip_whitespace_bounds(s, behind_name);
            skip_whitespace_bounds(s, opening + 1);
            skip_whitespace_bounds(s, closing + 1);
            if has_char(s, opening, '(') && has_char(s, closing, ')') && has_char(s, brace, '{') {
                statements_tail_advances(s, brace + 1, seq![datatype, identifier]);
            }
        }
    }
}

/// The functions of a program: for as long as the text has not ended, a
/// function is added to `nodes`; at its end, the `EOI` node.
pub open spec fn functions_tail(s: Seq<char>, at: int, nodes: Seq<Cst>) -> Result<Seq<Cst>, int>
    decreases s.len() - at,
{
    let next = skip_whitespace(s, at);
    if 0 <= next < s.len() {
        proof {
            skip_whitespace_bounds(s, at);
            function_advances(s, next);
        }
        match match_function(s, next) {
            Err(failed) => Err(failed),
            Ok((function, end)) => functions_tail(s, end, nodes.push(function)),
        }
    } else {
        Ok(nodes.push(leaf(Rule::EOI, s, next, next)))
    }
}

/// A program that fails, fails at its beginning or further on, and within
/// the text.
pub proof fn functions_tail_advances(s: Seq<char>, at: int, nodes: Seq<Cst>)
    requires
        0 <= at <= s.len(),
    ensures
        functions_tail(s, at, nodes) matches Err(failed) ==> at <= failed <= s.len(),
    decreases s.len() - at,
{
    let next = skip_whitespace(s, at);
    skip_whitespace_bounds(s, at);
    if 0 <= next < s.len() {
        function_advances(s, next);
        if let Ok((function, end)) = match_function(s, next) {
            functions_tail_advances(s, end, nodes.push(function));
        }
    }
}

/// The nodes of a rule that matches one node.
pub open spec fn one_node(matched: Result<(Cst, int), int>) -> Result<Seq<Cst>, int> {
    match matched {
        Ok((node, _)) => Ok(seq![node]),
        Err(failed) => Err(failed),
    }
}

/// What matching `rule` at the beginning of `s` gives: the nodes that were
/// matched, or the offset at which the text stops matching. Every rule but
/// `program` and `EOI` matches a beginning of the text and lets anything
/// follow; a program is matched to the end of the text.
pub open spec fn grammar_match(rule: Rule, s: Seq<char>) -> Result<Seq<Cst>, int> {
    match rule {
        Rule::EOI => if s.len() == 0 {
            Ok(seq![leaf(Rule::EOI, s, 0, 0)])
        } else {
            Err(0)
        },
        Rule::program => functions_tail(s, 0, Seq::empty()),
        Rule::function => one_node(match_function(s, 0)),
        Rule::datatype => one_node(match_datatype(s, 0)),
        Rule::identifier => one_node(match_identifier(s, 0)),
        Rule::return_stmt => one_node(match_return_stmt(s, 0)),
        Rule::expression => one_node(match_expression(s, 0)),
        Rule::term => one_node(match_term(s, 0)),
        Rule::factor => one_node(match_factor(s, 0)),
        Rule::number => one_node(match_number(s, 0)),
        Rule::unary_operator => one_node(match_unary_operator(s, 0)),
        Rule::additive_operator => one_node(match_additive_operator(s, 0)),
    }
}

/// A mismatch lies within the text, or at its end.
pub proof fn mismatch_is_within(rule: Rule, s: Seq<char>)
    ensures
        grammar_match(rule, s) matches Err(failed) ==> 0 <= failed <= s.len(),
{
    term_advances(s, 0);
    statement_advances(s, 0);
    function_advances(s, 0);
    functions_tail_advances(s, 0, Seq::empty());
}

} // verus!
