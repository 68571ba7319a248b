//! The grammar and the builder agree: every tree that the grammar matches
//! has the shape that the builder accepts. Reading a program therefore
//! succeeds exactly when the text matches the grammar and each of its
//! literals fits in 16 signed bits.

use vstd::prelude::*;
use crate::ast::Ast;
use crate::builder::{
    expression_ast, factor_ast, folded_or_term, function_ast, functions_are_well_formed,
    program_ast, statement_ast, statements_ast, term_ast,
};
use crate::cst::{Cst, Rule};
use crate::error::{BuildError, ParseError};
use crate::grammar::{
    additive_tail, digits_end, digits_end_bounds, function_advances, functions_tail,
    grammar_match, has_text, is_additive_symbol, is_unary_symbol, leaf, match_datatype,
    match_expression, match_factor, match_function, match_identifier, match_number,
    match_return_stmt, match_term, mismatch_is_within, node, number_end, skip_whitespace,
    skip_whitespace_bounds, statement_advances, statements_tail, term_advances, word_end_bounds,
};
use crate::literal::{has_base_prefix, is_digit, is_number, literal_value};
use crate::operator::{binary_operator_of, unary_operator_of};
use crate::parser::parse_result;

verus! {

/// Whether every number in the tree fits in 16 signed bits.
pub open spec fn literals_fit(tree: Cst) -> bool
    decreases tree,
{
    if tree.rule == Rule::number {
        literal_value(tree.text) is Ok
    } else {
        forall|i: int| 0 <= i < tree.children.len() ==> literals_fit(#[trigger] tree.children[i])
    }
}

/// Whether building from `tree` went as its literals decide: it gave a
/// result if each of them fits, and failed for a literal out of range if
/// one does not.
pub open spec fn built_as_fits<T>(r: Result<T, BuildError>, tree: Cst) -> bool {
    if literals_fit(tree) {
        r is Ok
    } else {
        r == Err::<T, BuildError>(BuildError::LiteralOutOfRange)
    }
}

/// Every character before the end of a run of digits is a digit.
proof fn digits_before_end(s: Seq<char>, at: int, radix: int)
    requires
        0 <= at,
    ensures
        forall|i: int| at <= i < digits_end(s, at, radix) ==> is_digit(#[trigger] s[i], radix),
    decreases s.len() - at,
{
    if at < s.len() && is_digit(s[at], radix) {
        digits_before_end(s, at + 1, radix);
    }
}

/// The text of a number that the grammar matched is a well-formed literal:
/// it has a value, or is out of range.
pub proof fn number_is_well_formed(s: Seq<char>, at: int)
    requires
        0 <= at,
    ensures
        match_number(s, at) matches Ok((number, _)) ==> number.rule == Rule::number
            && built_as_fits(literal_value(number.text), number),
{
    if let Some(end) = number_end(s, at) {
        let text = s.subrange(at, end);
        digits_before_end(s, at, 10);
        digits_before_end(s, at + 2, 2);
        digits_before_end(s, at + 2, 16);
        digits_end_bounds(s, at, 10);
        digits_end_bounds(s, at + 2, 2);
        digits_end_bounds(s, at + 2, 16);
        let zero_b = seq!['0', 'b'];
        let zero_x = seq!['0', 'x'];
        assert(zero_b.len() == 2 && zero_b[0] == '0' && zero_b[1] == 'b');
        assert(zero_x.len() == 2 && zero_x[0] == '0' && zero_x[1] == 'x');
        if has_text(s, at, zero_b) && digits_end(s, at + 2, 2) > at + 2 {
            assert(s.subrange(at, at + 2)[0] == s[at] && s.subrange(at, at + 2)[1] == s[at + 1]);
            assert(has_base_prefix(text, 'b'));
            let digits = text.skip(2);
            assert(digits =~= s.subrange(at + 2, end));
            assert(is_number(digits, 2));
            assert(is_digit(digits[0], 2));
        } else if has_text(s, at, zero_x) && digits_end(s, at + 2, 16) > at + 2 {
            assert(s.subrange(at, at + 2)[0] == s[at] && s.subrange(at, at + 2)[1] == s[at + 1]);
            assert(has_base_prefix(text, 'x'));
            assert(!has_base_prefix(text, 'b'));
            let digits = text.skip(2);
            assert(digits =~= s.subrange(at + 2, end));
            assert(is_number(digits, 16));
            assert(is_digit(digits[0], 16));
        } else {
            assert(is_number(text, 10));
            assert(is_digit(text[0], 10));
            if text.len() >= 2 {
                assert(is_digit(text[1], 10));
            }
        }
    }
}

/// Every factor and every term that the grammar matches is built as its
/// literals decide.
pub proof fn terms_build(s: Seq<char>, at: int)
    requires
        0 <= at,
    ensures
        match_factor(s, at) matches Ok((factor, _)) ==> factor.rule == Rule::factor
            && built_as_fits(factor_ast(factor), factor),
        match_term(s, at) matches Ok((term, _)) ==> term.rule == Rule::term && built_as_fits(
            term_ast(term),
            term,
        ),
    decreases s.len() - at,
{
    reveal_with_fuel(match_term, 2);
    reveal_with_fuel(term_ast, 4);
    reveal_with_fuel(literals_fit, 3);
    if at < s.len() && is_unary_symbol(s[at]) {
        let start = skip_whitespace(s, at + 1);
        skip_whitespace_bounds(s, at + 1);
        terms_build(s, start);
        if let Ok((term, end)) = match_term(s, start) {
            let operator = leaf(Rule::unary_operator, s, at, at + 1);
            let factor = node(Rule::factor, s, at, end, seq![operator, term]);
            let outer = node(Rule::term, s, at, end, seq![factor]);
            assert(operator.text =~= seq![s[at]]);
            assert(unary_operator_of(operator.text) is Ok) by {
                assert(seq!['-'] =~= seq![s[at]] || seq!['!'] =~= seq![s[at]] || seq!['~']
                    =~= seq![s[at]]);
            }
            assert(factor.children[0] == operator);
            assert(factor.children[1] == term);
            assert(expression_ast(factor.children, 1, None) == term_ast(term));
            assert(literals_fit(operator));
            assert(literals_fit(factor) == literals_fit(term));
            assert(outer.children[0] == factor);
            assert(literals_fit(outer) == literals_fit(factor));
        }
    } else {
        number_is_well_formed(s, at);
        if let Ok((number, end)) = match_number(s, at) {
            let factor = node(Rule::factor, s, at, end, seq![number]);
            let outer = node(Rule::term, s, at, end, seq![factor]);
            assert(factor.children[0] == number);
            assert(literals_fit(factor) == literals_fit(number));
            assert(outer.children[0] == factor);
            assert(literals_fit(outer) == literals_fit(factor));
        }
    }
}

/// The shape of the children of an expression: terms that are built as
/// their literals decide, with an additive operator between each two of
/// them.
spec fn is_additive_run(children: Seq<Cst>) -> bool {
    &&& children.len() % 2 == 1
    &&& forall|i: int|
        0 <= i < children.len() && i % 2 == 0 ==> (#[trigger] children[i]).rule == Rule::term
            && built_as_fits(term_ast(children[i]), children[i])
    &&& forall|i: int|
        0 <= i < children.len() && i % 2 == 1 ==> (#[trigger] children[i]).rule
            == Rule::additive_operator && binary_operator_of(children[i].text) is Ok
            && literals_fit(children[i])
}

/// The rest of an expression keeps the shape of its children.
proof fn additive_tail_keeps_shape(s: Seq<char>, at: int, children: Seq<Cst>)
    requires
        0 <= at <= s.len(),
        is_additive_run(children),
    ensures
        additive_tail(s, at, children) matches Ok((all, _)) ==> is_additive_run(all),
    decreases s.len() - at,
{
    let symbol = skip_whitespace(s, at);
    skip_whitespace_bounds(s, at);
    if 0 <= symbol < s.len() && is_additive_symbol(s[symbol]) {
        let start = skip_whitespace(s, symbol + 1);
        skip_whitespace_bounds(s, symbol + 1);
        term_advances(s, start);
        terms_build(s, start);
        if let Ok((term, end)) = match_term(s, start) {
            let operator = leaf(Rule::additive_operator, s, symbol, symbol + 1);
            assert(operator.text =~= seq![s[symbol]]);
            assert(binary_operator_of(operator.text) is Ok) by {
                assert(seq!['+'] =~= seq![s[symbol]] || seq!['-'] =~= seq![s[symbol]]);
            }
            assert(literals_fit(operator));
            let longer = children.push(operator).push(term);
            assert forall|i: int| 0 <= i < longer.len() && i % 2 == 0 implies (
            #[trigger] longer[i]).rule == Rule::term && built_as_fits(
                term_ast(longer[i]),
                longer[i],
            ) by {
                if i < children.len() {
                    assert(longer[i] == children[i]);
                }
            }
            assert forall|i: int| 0 <= i < longer.len() && i % 2 == 1 implies (
            #[trigger] longer[i]).rule == Rule::additive_operator && binary_operator_of(
                longer[i].text,
            ) is Ok && literals_fit(longer[i]) by {
                if i < children.len() {
                    assert(longer[i] == children[i]);
                }
            }
            additive_tail_keeps_shape(s, end, longer);
        }
    }
}

/// Whether the literals decide that a run can be folded from `current` on:
/// those of the term at `current`, unless something was folded before it,
/// and those of every node behind it.
spec fn run_fits(children: Seq<Cst>, current: int, folded: Option<Ast>) -> bool {
    &&& folded is Some || literals_fit(children[current])
    &&& forall|i: int| current < i < children.len() ==> literals_fit(#[trigger] children[i])
}

/// A run of that shape is folded, from any of its terms on, as its literals
/// decide.
proof fn additive_run_builds(children: Seq<Cst>, current: int, folded: Option<Ast>)
    requires
        is_additive_run(children),
        0 <= current < children.len(),
        current % 2 == 0,
    ensures
        if run_fits(children, current, folded) {
            expression_ast(children, current, folded) is Ok
        } else {
            expression_ast(children, current, folded) == Err::<Ast, BuildError>(
                BuildError::LiteralOutOfRange,
            )
        },
    decreases children.len() - current,
{
    reveal_with_fuel(expression_ast, 2);
    let term = children[current];
    if current + 1 < children.len() {
        let operator = children[current + 1];
        let next = children[current + 2];
        assert(literals_fit(operator));
        if let Ok(symbol) = binary_operator_of(operator.text) {
            if let Ok(lhs) = folded_or_term(folded, term) {
                if let Ok(rhs) = term_ast(next) {
                    let further = Some(
                        Ast::Expression {
                            lhs: Box::new(lhs),
                            operator: Some(symbol),
                            rhs: Some(Box::new(rhs)),
                        },
                    );
                    additive_run_builds(children, current + 2, further);
                    assert(run_fits(children, current, folded) == run_fits(
                        children,
                        current + 2,
                        further,
                    )) by {
                        if run_fits(children, current + 2, further) {
                            assert forall|i: int| current < i < children.len() implies literals_fit(
                                #[trigger] children[i],
                            ) by {
                                if i > current + 2 {
                                } else if i == current + 2 {
                                } else {
                                }
                            }
                        }
                    }
                } else {
                    assert(!literals_fit(children[current + 2]));
                }
            }
        }
    }
}

/// Every expression that the grammar matches is built as its literals
/// decide.
proof fn expressions_build(s: Seq<char>, at: int)
    requires
        0 <= at,
    ensures
        match_expression(s, at) matches Ok((expression, _)) ==> expression.rule
            == Rule::expression && built_as_fits(
            expression_ast(seq![expression], 0, None),
            expression,
        ),
{
    term_advances(s, at);
    terms_build(s, at);
    if let Ok((term, behind)) = match_term(s, at) {
        let first = seq![term];
        assert(is_additive_run(first));
        additive_tail_keeps_shape(s, behind, first);
        if let Ok((children, end)) = additive_tail(s, behind, first) {
            additive_run_builds(children, 0, None);
            let expression = node(Rule::expression, s, at, end, children);
            assert(expression_ast(seq![expression], 0, None) == expression_ast(children, 0, None))
                by {
                reveal_with_fuel(expression_ast, 2);
            }
            assert(literals_fit(expression) == run_fits(children, 0, None)) by {
                if run_fits(children, 0, None) {
                    assert forall|i: int| 0 <= i < children.len() implies literals_fit(
                        #[trigger] children[i],
                    ) by {}
                }
            }
        }
    }
}

/// Every expression and every statement that the grammar matches is built
/// as its literals decide.
pub proof fn statements_build(s: Seq<char>, at: int)
    requires
        0 <= at,
    ensures
        match_expression(s, at) matches Ok((expression, _)) ==> expression.rule
            == Rule::expression && built_as_fits(
            expression_ast(seq![expression], 0, None),
            expression,
        ),
        match_return_stmt(s, at) matches Ok((statement, _)) ==> statement.rule
            == Rule::return_stmt && built_as_fits(statement_ast(statement), statement),
{
    expressions_build(s, at);
    let start = skip_whitespace(s, at + "return"@.len());
    skip_whitespace_bounds(s, at + "return"@.len());
    expressions_build(s, start);
    if let Ok((statement, _)) = match_return_stmt(s, at) {
        let expression = statement.children[0];
        assert(expression_ast(seq![expression], 0, None) == expression_ast(
            statement.children,
            0,
            None,
        )) by {
            reveal_with_fuel(expression_ast, 2);
        }
        assert(literals_fit(statement) == literals_fit(expression));
    }
}

/// The shape of the children of a function: the return type `int`, the
/// name, and then statements that are built as their literals decide.
pub open spec fn is_function_body(children: Seq<Cst>) -> bool {
    &&& children.len() >= 2
    &&& children[0].text == "int"@
    &&& literals_fit(children[0])
    &&& literals_fit(children[1])
    &&& forall|i: int|
        2 <= i < children.len() ==> (#[trigger] children[i]).rule == Rule::return_stmt
            && built_as_fits(statement_ast(children[i]), children[i])
}

/// The statements of a function keep the shape of its children.
proof fn statements_tail_keeps_shape(s: Seq<char>, at: int, children: Seq<Cst>)
    requires
        0 <= at <= s.len(),
        is_function_body(children),
    ensures
        statements_tail(s, at, children) matches Ok((all, _)) ==> is_function_body(all)
            && all.len() >= children.len() && all[1] == children[1],
    decreases s.len() - at,
{
    let next = skip_whitespace(s, at);
    skip_whitespace_bounds(s, at);
    if 0 <= next < s.len() && s[next] != '}' {
        statement_advances(s, next);
        statements_build(s, next);
        if let Ok((statement, end)) = match_return_stmt(s, next) {
            let longer = children.push(statement);
            assert forall|i: int| 2 <= i < longer.len() implies (#[trigger] longer[i]).rule
                == Rule::return_stmt && built_as_fits(statement_ast(longer[i]), longer[i]) by {
                if i < children.len() {
                    assert(longer[i] == children[i]);
                }
            }
            statements_tail_keeps_shape(s, end, longer);
        }
    }
}

/// Statements that are each built as their literals decide are built in a
/// row as their literals decide.
proof fn statement_run_builds(nodes: Seq<Cst>)
    requires
        forall|i: int|
            0 <= i < nodes.len() ==> built_as_fits(statement_ast(#[trigger] nodes[i]), nodes[i]),
    ensures
        if forall|i: int| 0 <= i < nodes.len() ==> literals_fit(#[trigger] nodes[i]) {
            statements_ast(nodes) is Ok
        } else {
            statements_ast(nodes) == Err::<Seq<Ast>, BuildError>(BuildError::LiteralOutOfRange)
        },
    decreases nodes.len(),
{
    if nodes.len() > 0 {
        let before = nodes.drop_last();
        assert forall|i: int| 0 <= i < before.len() implies built_as_fits(
            statement_ast(#[trigger] before[i]),
            before[i],
        ) by {
            assert(before[i] == nodes[i]);
        }
        statement_run_builds(before);
        assert(nodes.last() == nodes[nodes.len() - 1]);
        if forall|i: int| 0 <= i < nodes.len() ==> literals_fit(#[trigger] nodes[i]) {
            assert forall|i: int| 0 <= i < before.len() implies literals_fit(
                #[trigger] before[i],
            ) by {
                assert(before[i] == nodes[i]);
            }
        } else if forall|i: int| 0 <= i < before.len() ==> literals_fit(#[trigger] before[i]) {
            assert(!literals_fit(nodes.last())) by {
                let i = choose|i: int| 0 <= i < nodes.len() && !literals_fit(#[trigger] nodes[i]);
                if i < before.len() {
                    assert(before[i] == nodes[i]);
                }
            }
        }
    }
}

/// Every function that the grammar matches has the return type `int`, and
/// is built as its literals decide.
pub proof fn functions_build(s: Seq<char>, at: int)
    requires
        0 <= at,
    ensures
        match_function(s, at) matches Ok((function, _)) ==> function.rule == Rule::function
            && is_function_body(function.children) && built_as_fits(
            function_ast(function),
            function,
        ),
{
    if let Ok((function, _)) = match_function(s, at) {
        if let Ok((datatype, behind_type)) = match_datatype(s, at) {
            let name = skip_whitespace(s, behind_type);
            skip_whitespace_bounds(s, behind_type);
            if let Ok((identifier, behind_name)) = match_identifier(s, name) {
                word_end_bounds(s, name);
                let opening = skip_whitespace(s, behind_name);
                let closing = skip_whitespace(s, opening + 1);
                let brace = skip_whitespace(s, closing + 1);
                skip_whitespace_bounds(s, behind_name);
                skip_whitespace_bounds(s, opening + 1);
                skip_whitespace_bounds(s, closing + 1);
                let names = seq![datatype, identifier];
                assert(literals_fit(datatype));
                assert(literals_fit(identifier));
                assert(is_function_body(names));
                statements_tail_keeps_shape(s, brace + 1, names);
                let statements = function.children.skip(2);
                assert forall|i: int| 0 <= i < statements.len() implies built_as_fits(
                    statement_ast(#[trigger] statements[i]),
                    statements[i],
                ) by {
                    assert(statements[i] == function.children[i + 2]);
                }
                statement_run_builds(statements);
                let statements_fit = forall|i: int|
                    0 <= i < statements.len() ==> literals_fit(#[trigger] statements[i]);
                assert(literals_fit(function) == statements_fit) by {
                    if statements_fit {
                        assert forall|i: int| 0 <= i < function.children.len() implies literals_fit(
                            #[trigger] function.children[i],
                        ) by {
                            if i >= 2 {
                                assert(statements[i - 2] == function.children[i]);
                            }
                        }
                    }
                    if literals_fit(function) {
                        assert forall|i: int| 0 <= i < statements.len() implies literals_fit(
                            #[trigger] statements[i],
                        ) by {
                            assert(statements[i] == function.children[i + 2]);
                        }
                    }
                }
            }
        }
    }
}

/// The shape of the nodes of a program: functions of the shape above.
spec fn is_function_run(nodes: Seq<Cst>) -> bool {
    forall|i: int|
        0 <= i < nodes.len() ==> (#[trigger] nodes[i]).rule == Rule::function && is_function_body(
            nodes[i].children,
        ) && built_as_fits(function_ast(nodes[i]), nodes[i])
}

/// The functions of a program keep the shape of its nodes, and the `EOI`
/// node comes last.
proof fn functions_tail_keeps_shape(s: Seq<char>, at: int, nodes: Seq<Cst>)
    requires
        0 <= at <= s.len(),
        is_function_run(nodes),
    ensures
        functions_tail(s, at, nodes) matches Ok(all) ==> all.len() > nodes.len()
            && is_function_run(all.drop_last()) && all.last().rule == Rule::EOI && literals_fit(
            all.last(),
        ) && (forall|i: int| 0 <= i < nodes.len() ==> all[i] == nodes[i]),
    decreases s.len() - at,
{
    let next = skip_whitespace(s, at);
    skip_whitespace_bounds(s, at);
    if 0 <= next < s.len() {
        function_advances(s, next);
        functions_build(s, next);
        if let Ok((function, end)) = match_function(s, next) {
            let longer = nodes.push(function);
            assert forall|i: int| 0 <= i < longer.len() implies (#[trigger] longer[i]).rule
                == Rule::function && is_function_body(longer[i].children) && built_as_fits(
                function_ast(longer[i]),
                longer[i],
            ) by {
                if i < nodes.len() {
                    assert(longer[i] == nodes[i]);
                }
            }
            functions_tail_keeps_shape(s, end, longer);
            if let Ok(all) = functions_tail(s, end, longer) {
                assert forall|i: int| 0 <= i < nodes.len() implies all[i] == nodes[i] by {
                    assert(longer[i] == nodes[i]);
                }
            }
        }
    } else {
        let all = nodes.push(leaf(Rule::EOI, s, next, next));
        assert(all.drop_last() =~= nodes);
        assert(literals_fit(all.last()));
    }
}

/// Functions that are each built as their literals decide give a program
/// that is built as its literals decide, with one tree for each of them.
proof fn function_run_builds(nodes: Seq<Cst>)
    requires
        is_function_run(nodes),
    ensures
        if forall|i: int| 0 <= i < nodes.len() ==> literals_fit(#[trigger] nodes[i]) {
            program_ast(nodes) is Ok
        } else {
            program_ast(nodes) == Err::<Seq<Ast>, BuildError>(BuildError::LiteralOutOfRange)
        },
        program_ast(nodes) matches Ok(trees) ==> trees.len() == nodes.len() && forall|i: int|
            0 <= i < nodes.len() ==> function_ast(nodes[i]) == Ok::<Ast, BuildError>(
                #[trigger] trees[i],
            ),
    decreases nodes.len(),
{
    if nodes.len() > 0 {
        let before = nodes.drop_last();
        assert forall|i: int| 0 <= i < before.len() implies (#[trigger] before[i]).rule
            == Rule::function && is_function_body(before[i].children) && built_as_fits(
            function_ast(before[i]),
            before[i],
        ) by {
            assert(before[i] == nodes[i]);
        }
        function_run_builds(before);
        assert(nodes.last() == nodes[nodes.len() - 1]);
        if forall|i: int| 0 <= i < nodes.len() ==> literals_fit(#[trigger] nodes[i]) {
            assert forall|i: int| 0 <= i < before.len() implies literals_fit(
                #[trigger] before[i],
            ) by {
                assert(before[i] == nodes[i]);
            }
        } else if forall|i: int| 0 <= i < before.len() ==> literals_fit(#[trigger] before[i]) {
            assert(!literals_fit(nodes.last())) by {
                let i = choose|i: int| 0 <= i < nodes.len() && !literals_fit(#[trigger] nodes[i]);
                if i < before.len() {
                    assert(before[i] == nodes[i]);
                }
            }
        }
        if let Ok(trees) = program_ast(nodes) {
            assert forall|i: int| 0 <= i < nodes.len() implies function_ast(nodes[i]) == Ok::<
                Ast,
                BuildError,
            >(#[trigger] trees[i]) by {
                if i < before.len() {
                    assert(before[i] == nodes[i]);
                }
            }
        }
    }
}

/// Whether every number of a program fits in 16 signed bits.
pub open spec fn program_fits(nodes: Seq<Cst>) -> bool {
    forall|i: int| 0 <= i < nodes.len() ==> literals_fit(#[trigger] nodes[i])
}

/// Reading a program succeeds or fails as follows, whatever the text.
///
/// It succeeds exactly when the grammar matches the text and every number
/// in it fits in 16 signed bits. There is then one tree for each function
/// that was matched, in their order: a function with the return type `int`,
/// the name as written, and one return statement for each statement that
/// was matched. Where the grammar does not match, the failure is the
/// mismatch, at an offset within the text. Where it matches and a number
/// does not fit, the failure is a literal out of range: no text that the
/// grammar matches has an unexpected construct, an unknown operator or a
/// malformed literal.
pub proof fn parse_outcomes(source: Seq<char>)
    ensures
        match parse_result(source) {
            Ok(trees) => {
                &&& grammar_match(Rule::program, source) matches Ok(nodes)
                &&& program_fits(nodes)
                &&& nodes.len() == trees.len() + 1
                &&& forall|i: int|
                    0 <= i < trees.len() ==> {
                        &&& (#[trigger] trees[i]) matches Ast::Function {
                            return_type,
                            identifier,
                            statements,
                        }
                        &&& return_type == "int"@
                        &&& identifier == nodes[i].children[1].text
                        &&& statements.len() == nodes[i].children.len() - 2
                        &&& trees[i].well_formed()
                    }
            },
            Err(ParseError::Grammar(mismatch)) => {
                &&& grammar_match(Rule::program, source) matches Err(failed)
                &&& mismatch.position == failed as usize
                &&& 0 <= failed <= source.len()
            },
            Err(ParseError::Build(e)) => {
                &&& grammar_match(Rule::program, source) matches Ok(nodes)
                &&& !program_fits(nodes)
                &&& e == BuildError::LiteralOutOfRange
            },
        },
{
    mismatch_is_within(Rule::program, source);
    functions_tail_keeps_shape(source, 0, Seq::empty());
    if let Ok(nodes) = grammar_match(Rule::program, source) {
        let functions = nodes.drop_last();
        function_run_builds(functions);
        assert(nodes.last().rule == Rule::EOI);
        assert(nodes.last() == nodes[nodes.len() - 1]);
        assert(program_ast(nodes) == program_ast(functions));
        assert(program_fits(nodes) == program_fits(functions)) by {
            if program_fits(functions) {
                assert forall|i: int| 0 <= i < nodes.len() implies literals_fit(
                    #[trigger] nodes[i],
                ) by {
                    if i < functions.len() {
                        assert(functions[i] == nodes[i]);
                    }
                }
            }
            if program_fits(nodes) {
                assert forall|i: int| 0 <= i < functions.len() implies literals_fit(
                    #[trigger] functions[i],
                ) by {
                    assert(functions[i] == nodes[i]);
                }
            }
        }
        if let Ok(trees) = program_ast(nodes) {
            assert forall|i: int| 0 <= i < trees.len() implies {
                &&& (#[trigger] trees[i]) matches Ast::Function {
                    return_type,
                    identifier,
                    statements,
                }
                &&& return_type == "int"@
                &&& identifier == nodes[i].children[1].text
                &&& statements.len() == nodes[i].children.len() - 2
                &&& trees[i].well_formed()
            } by {
                assert(functions[i] == nodes[i]);
                functions_are_well_formed(nodes[i]);
            }
        }
    }
}

/// A program that is one function `main` with one return statement comes to
/// exactly one function, with the return type `int`, the name `main` and
/// one statement, which is a return statement. It fails only where a
/// literal of the statement does not fit in 16 signed bits.
pub proof fn single_return_main(source: Seq<char>)
    requires
        grammar_match(Rule::program, source) matches Ok(nodes) && nodes.len() == 2
            && nodes[0].children.len() == 3 && nodes[0].children[1].text == "main"@,
    ensures
        match parse_result(source) {
            Ok(trees) => {
                &&& trees.len() == 1
                &&& trees[0] matches Ast::Function { return_type, identifier, statements }
                &&& return_type == "int"@
                &&& identifier == "main"@
                &&& statements.len() == 1
                &&& statements[0] is ReturnStatement
            },
            Err(e) => e == ParseError::Build(BuildError::LiteralOutOfRange),
        },
{
    parse_outcomes(source);
    if let Ok(trees) = parse_result(source) {
        assert(trees[0].well_formed());
    }
}

} // verus!
