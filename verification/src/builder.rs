//! The tree builder: from the concrete syntax tree to the abstract one.
//!
//! Each level of the grammar has a function that takes the nodes of that
//! level and gives one node of the abstract syntax tree, or the first error
//! that it meets. What each function returns is defined here on the models
//! of the trees; the functions that do the work are held to these
//! definitions.

use vstd::prelude::*;
use crate::ast::{ast_of, ast_seq, ASTNode, Ast};
use crate::cst::{cst_seq, Cst, CstNode, Rule};
use crate::error::BuildError;
use crate::literal::{convert_str_to_int, literal_value};
use crate::operator::{
    binary_operator_of, get_node_from_binary_operator, get_node_from_unary_operator,
    unary_operator_of,
};

verus! {

/// The error for a node that stands where the builder accepts none of its
/// kind.
pub open spec fn unexpected(rule: Rule) -> BuildError {
    BuildError::UnexpectedConstruct { found: Some(rule) }
}

/// The error for a node that is required and not there.
pub open spec fn missing() -> BuildError {
    BuildError::UnexpectedConstruct { found: None }
}

/// The factor that a `factor` node stands for. Its first child decides: a
/// number gives a literal; a unary operator is applied to the expression
/// that begins at the second child.
pub open spec fn factor_ast(node: Cst) -> Result<Ast, BuildError>
    decreases node, 0nat,
{
    if node.rule != Rule::factor {
        Err(unexpected(node.rule))
    } else if node.children.len() == 0 {
        Err(missing())
    } else {
        let first = node.children[0];
        match first.rule {
            Rule::unary_operator => match unary_operator_of(first.text) {
                Err(e) => Err(e),
                Ok(operator) => match expression_ast(node.children, 1, None) {
                    Err(e) => Err(e),
                    Ok(operand) => Ok(
                        Ast::Factor {
                            literal: None,
                            operator: Some(operator),
                            expression: Some(Box::new(operand)),
                        },
                    ),
                },
            },
            Rule::number => match literal_value(first.text) {
                Err(e) => Err(e),
                Ok(value) => Ok(
                    Ast::Factor {
                        literal: Some(Box::new(Ast::Integer(value))),
                        operator: None,
                        expression: None,
                    },
                ),
            },
            _ => Err(unexpected(first.rule)),
        }
    }
}

/// The term that a `term` node stands for: the factor of its first child,
/// with no operator and no right-hand side.
pub open spec fn term_ast(node: Cst) -> Result<Ast, BuildError>
    decreases node, 0nat,
{
    if node.rule != Rule::term {
        Err(unexpected(node.rule))
    } else if node.children.len() == 0 {
        Err(missing())
    } else {
        match factor_ast(node.children[0]) {
            Err(e) => Err(e),
            Ok(factor) => Ok(Ast::Term { lhs: Box::new(factor), operator: None, rhs: None }),
        }
    }
}

/// What has been folded so far, or else the term at hand.
pub open spec fn folded_or_term(folded: Option<Ast>, node: Cst) -> Result<Ast, BuildError>
    decreases node, 1nat,
{
    match folded {
        Some(tree) => Ok(tree),
        None => term_ast(node),
    }
}

/// The expression that the run `siblings` stands for from index `current`
/// on, where `folded` holds what the terms before `current` have come to.
///
/// An `expression` node at `current` stands for what its own children
/// build. A `term` that ends the run gives `folded`, or itself where nothing
/// was folded. A `term` that an additive operator and a further term follow
/// is folded with them into an expression whose left-hand side is `folded`
/// (or that term), and the fold goes on from the further term: the chain
/// leans to the left.
pub open spec fn expression_ast(siblings: Seq<Cst>, current: int, folded: Option<Ast>) -> Result<
    Ast,
    BuildError,
>
    decreases siblings, siblings.len() - current,
{
    if current < 0 || current >= siblings.len() {
        Err(missing())
    } else {
        let node = siblings[current];
        match node.rule {
            Rule::expression => expression_ast(node.children, 0, None),
            Rule::term => if current + 1 >= siblings.len() {
                folded_or_term(folded, node)
            } else if siblings[current + 1].rule != Rule::additive_operator {
                Err(unexpected(siblings[current + 1].rule))
            } else if current + 2 >= siblings.len() {
                Err(missing())
            } else {
                match binary_operator_of(siblings[current + 1].text) {
                    Err(e) => Err(e),
                    Ok(operator) => match folded_or_term(folded, node) {
                        Err(e) => Err(e),
                        Ok(lhs) => match term_ast(siblings[current + 2]) {
                            Err(e) => Err(e),
                            Ok(rhs) => expression_ast(
                                siblings,
                                current + 2,
                                Some(
                                    Ast::Expression {
                                        lhs: Box::new(lhs),
                                        operator: Some(operator),
                                        rhs: Some(Box::new(rhs)),
                                    },
                                ),
                            ),
                        },
                    },
                }
            },
            _ => Err(unexpected(node.rule)),
        }
    }
}

/// The statement that a `return_stmt` node stands for: it returns the
/// expression that begins at the node's first child.
pub open spec fn statement_ast(node: Cst) -> Result<Ast, BuildError> {
    if node.rule != Rule::return_stmt {
        Err(unexpected(node.rule))
    } else {
        match expression_ast(node.children, 0, None) {
            Err(e) => Err(e),
            Ok(expression) => Ok(Ast::ReturnStatement(Box::new(expression))),
        }
    }
}

/// The statements that the nodes stand for, in their order; the error of the
/// first node that has one.
pub open spec fn statements_ast(nodes: Seq<Cst>) -> Result<Seq<Ast>, BuildError>
    decreases nodes.len(),
{
    if nodes.len() == 0 {
        Ok(Seq::empty())
    } else {
        match statements_ast(nodes.drop_last()) {
            Err(e) => Err(e),
            Ok(statements) => match statement_ast(nodes.last()) {
                Err(e) => Err(e),
                Ok(statement) => Ok(statements.push(statement)),
            },
        }
    }
}

/// The function that a `function` node stands for. The text of the first
/// child is its return type, that of the second its name, as they are; the
/// children after them are its statements.
pub open spec fn function_ast(node: Cst) -> Result<Ast, BuildError> {
    if node.rule != Rule::function {
        Err(unexpected(node.rule))
    } else if node.children.len() < 2 {
        Err(missing())
    } else {
        match statements_ast(node.children.skip(2)) {
            Err(e) => Err(e),
            Ok(statements) => Ok(
                Ast::Function {
                    return_type: node.children[0].text,
                    identifier: node.children[1].text,
                    statements,
                },
            ),
        }
    }
}

/// The functions of a program: what the `function` nodes among `nodes`
/// stand for, in their order, with every other node passed over; the error
/// of the first function that has one.
pub open spec fn program_ast(nodes: Seq<Cst>) -> Result<Seq<Ast>, BuildError>
    decreases nodes.len(),
{
    if nodes.len() == 0 {
        Ok(Seq::empty())
    } else {
        match program_ast(nodes.drop_last()) {
            Err(e) => Err(e),
            Ok(functions) => if nodes.last().rule != Rule::function {
                Ok(functions)
            } else {
                match function_ast(nodes.last()) {
                    Err(e) => Err(e),
                    Ok(function) => Ok(functions.push(function)),
                }
            },
        }
    }
}

/// What a builder returned, with the tree taken by its model.
pub open spec fn built(r: Result<ASTNode, BuildError>) -> Result<Ast, BuildError> {
    match r {
        Ok(node) => Ok(node@),
        Err(e) => Err(e),
    }
}

/// What a builder of several trees returned, with the trees taken by their
/// models.
pub open spec fn built_run(r: Result<Vec<ASTNode>, BuildError>) -> Result<Seq<Ast>, BuildError> {
    match r {
        Ok(nodes) => Ok(ast_seq(nodes@)),
        Err(e) => Err(e),
    }
}

/// The model of what has been folded so far.
pub open spec fn folded_ast(sub_expr: Option<Box<ASTNode>>) -> Option<Ast> {
    match sub_expr {
        Some(tree) => Some(tree@),
        None => None,
    }
}

/// Every tree that the builder gives for a factor, a term or an expression
/// is well formed, if what had been folded before was.
pub proof fn expressions_are_well_formed(siblings: Seq<Cst>, current: int, folded: Option<Ast>)
    requires
        folded matches Some(tree) ==> tree.well_formed(),
    ensures
        expression_ast(siblings, current, folded) matches Ok(tree) ==> tree.well_formed(),
    decreases siblings, siblings.len() - current,
{
    if 0 <= current < siblings.len() {
        let node = siblings[current];
        if node.rule == Rule::expression {
            expressions_are_well_formed(node.children, 0, None);
        } else if node.rule == Rule::term {
            terms_are_well_formed(node);
            if current + 2 < siblings.len() && siblings[current + 1].rule
                == Rule::additive_operator {
                terms_are_well_formed(siblings[current + 2]);
                if let Ok(operator) = binary_operator_of(siblings[current + 1].text) {
                    if let Ok(lhs) = folded_or_term(folded, node) {
                        if let Ok(rhs) = term_ast(siblings[current + 2]) {
                            expressions_are_well_formed(
                                siblings,
                                current + 2,
                                Some(
                                    Ast::Expression {
                                        lhs: Box::new(lhs),
                                        operator: Some(operator),
                                        rhs: Some(Box::new(rhs)),
                                    },
                                ),
                            );
                        }
                    }
                }
            }
        }
    }
}

/// Every tree that the builder gives for a term is a well-formed term.
pub proof fn terms_are_well_formed(node: Cst)
    ensures
        term_ast(node) matches Ok(tree) ==> tree is Term && tree.well_formed(),
    decreases node, 2nat,
{
    if node.rule == Rule::term && node.children.len() > 0 {
        factors_are_well_formed(node.children[0]);
    }
}

/// Every tree that the builder gives for a factor is a well-formed factor:
/// it holds a literal, or an operator with its operand, and never both.
pub proof fn factors_are_well_formed(node: Cst)
    ensures
        factor_ast(node) matches Ok(tree) ==> tree is Factor && tree.well_formed(),
    decreases node, 0nat,
{
    if node.rule == Rule::factor && node.children.len() > 0 {
        if node.children[0].rule == Rule::unary_operator {
            expressions_are_well_formed(node.children, 1, None);
        }
    }
}

/// Every statement that the builder gives is a well-formed return statement.
pub proof fn statements_are_well_formed(nodes: Seq<Cst>)
    ensures
        statements_ast(nodes) matches Ok(statements) ==> statements.len() == nodes.len()
            && forall|i: int|
            0 <= i < statements.len() ==> (#[trigger] statements[i]) is ReturnStatement
                && statements[i].well_formed(),
    decreases nodes.len(),
{
    if nodes.len() > 0 {
        statements_are_well_formed(nodes.drop_last());
        expressions_are_well_formed(nodes.last().children, 0, None);
    }
}

/// Every function that the builder gives is well formed, and has one
/// statement for each child of the node after the first two.
pub proof fn functions_are_well_formed(node: Cst)
    ensures
        function_ast(node) matches Ok(tree) ==> tree is Function && tree.well_formed()
            && tree->statements.len() == node.children.len() - 2,
{
    if node.rule == Rule::function && node.children.len() >= 2 {
        statements_are_well_formed(node.children.skip(2));
    }
}

/// Builds the factor of a `factor` node.
///
/// Fails with the operator's or the literal's error where the first child
/// has one, with that of the operand's expression, and with
/// `UnexpectedConstruct` where `pair` is no `factor` node, has no child, has
/// a first child that is neither a unary operator nor a number, or has an
/// operator without an operand.
pub fn build_ast_from_factor(pair: &CstNode) -> (r: Result<ASTNode, BuildError>)
    ensures
        built(r) == factor_ast(pair@),
        r matches Ok(tree) ==> tree@.well_formed(),
    decreases pair, 0nat,
{
    proof {
        pair.view_children();
        factors_are_well_formed(pair@);
        reveal_with_fuel(ast_of, 3);
    }
    match pair.rule {
        Rule::factor => {},
        _ => {
            return Err(BuildError::UnexpectedConstruct { found: Some(pair.rule) });
        },
    }
    if pair.children.len() == 0 {
        return Err(BuildError::UnexpectedConstruct { found: None });
    }
    let token = &pair.children[0];
    assert(pair@.children[0] == token@);
    match token.rule {
        Rule::unary_operator => {
            let operator = match get_node_from_unary_operator(token.text.as_str()) {
                Ok(operator) => operator,
                Err(e) => {
                    return Err(e);
                },
            };
            match build_ast_from_expression(&pair.children, 1, None) {
                Ok(sub_expression) => Ok(
                    ASTNode::Factor {
                        operator: Some(operator),
                        expression: Some(Box::new(sub_expression)),
                        literal: None,
                    },
                ),
                Err(e) => Err(e),
            }
        },
        Rule::number => match convert_str_to_int(token.text.as_str()) {
            Ok(value) => Ok(
                ASTNode::Factor {
                    operator: None,
                    expression: None,
                    literal: Some(Box::new(ASTNode::Integer(value))),
                },
            ),
            Err(e) => Err(e),
        },
        _ => Err(BuildError::UnexpectedConstruct { found: Some(token.rule) }),
    }
}

/// Builds the term of a `term` node: the factor of its first child.
///
/// Fails with the factor's error, and with `UnexpectedConstruct` where
/// `pair` is no `term` node or has no child.
pub fn build_ast_from_term(pair: &CstNode) -> (r: Result<ASTNode, BuildError>)
    ensures
        built(r) == term_ast(pair@),
        r matches Ok(tree) ==> tree@.well_formed(),
    decreases pair, 1nat,
{
    proof {
        pair.view_children();
        terms_are_well_formed(pair@);
        reveal_with_fuel(ast_of, 2);
    }
    match pair.rule {
        Rule::term => {},
        _ => {
            return Err(BuildError::UnexpectedConstruct { found: Some(pair.rule) });
        },
    }
    if pair.children.len() == 0 {
        return Err(BuildError::UnexpectedConstruct { found: None });
    }
    assert(pair@.children[0] == pair.children[0]@);
    match build_ast_from_factor(&pair.children[0]) {
        Ok(factor) => Ok(ASTNode::Term { lhs: Box::new(factor), operator: None, rhs: None }),
        Err(e) => Err(e),
    }
}

/// Builds the expression that begins at `parent[current]`: folds the run of
/// terms and additive operators from there to the end of `parent` into a
/// chain that leans to the left. `sub_expr` is what the terms before
/// `current` were folded into, if there were any.
///
/// An `expression` node at `current` is built from its own children, with
/// nothing folded before. Fails with the first error among the operators and
/// terms of the run, and with `UnexpectedConstruct` where `current` is past
/// the end of `parent`, the node there is neither a term nor an expression,
/// a term is followed by anything but an additive operator, or an operator
/// is the last node.
pub fn build_ast_from_expression(
    parent: &Vec<CstNode>,
    current: usize,
    sub_expr: Option<Box<ASTNode>>,
) -> (r: Result<ASTNode, BuildError>)
    ensures
        built(r) == expression_ast(cst_seq(parent@), current as int, folded_ast(sub_expr)),
        (folded_ast(sub_expr) matches Some(tree) ==> tree.well_formed()) ==> (r matches Ok(tree)
            ==> tree@.well_formed()),
    decreases parent, 2nat,
{
    let ghost siblings = cst_seq(parent@);
    let ghost before = folded_ast(sub_expr);
    proof {
        if before matches Some(tree) ==> tree.well_formed() {
            expressions_are_well_formed(siblings, current as int, before);
        }
    }
    let mut at: usize = current;
    let mut folded: Option<Box<ASTNode>> = sub_expr;
    loop
        invariant
            siblings == cst_seq(parent@),
            before == folded_ast(sub_expr),
            (before matches Some(tree) ==> tree.well_formed()) ==> (expression_ast(
                siblings,
                current as int,
                before,
            ) matches Ok(tree) ==> tree.well_formed()),
            current <= at,
            expression_ast(siblings, at as int, folded_ast(folded)) == expression_ast(
                siblings,
                current as int,
                before,
            ),
        decreases parent.len() - at,
    {
        if at >= parent.len() {
            return Err(BuildError::UnexpectedConstruct { found: None });
        }
        let pair = &parent[at];
        proof {
            pair.view_children();
            reveal_with_fuel(ast_of, 2);
            reveal_with_fuel(expression_ast, 2);
            assert(siblings[at as int] == pair@);
        }
        match pair.rule {
            Rule::expression => {
                return build_ast_from_expression(&pair.children, 0, None);
            },
            Rule::term => {},
            _ => {
                return Err(BuildError::UnexpectedConstruct { found: Some(pair.rule) });
            },
        }
        if parent.len() - at <= 1 {
            return match folded {
                Some(tree) => Ok(*tree),
                None => build_ast_from_term(pair),
            };
        }
        let next_op_token = &parent[at + 1];
        assert(siblings[at + 1] == next_op_token@);
        match next_op_token.rule {
            Rule::additive_operator => {},
            _ => {
                return Err(BuildError::UnexpectedConstruct { found: Some(next_op_token.rule) });
            },
        }
        if parent.len() - at <= 2 {
            return Err(BuildError::UnexpectedConstruct { found: None });
        }
        let next_int_token = &parent[at + 2];
        assert(siblings[at + 2] == next_int_token@);
        let operator = match get_node_from_binary_operator(next_op_token.text.as_str()) {
            Ok(operator) => operator,
            Err(e) => {
                return Err(e);
            },
        };
        let lhs = match folded {
            Some(tree) => tree,
            None => match build_ast_from_term(pair) {
                Ok(term) => Box::new(term),
                Err(e) => {
                    return Err(e);
                },
            },
        };
        let rhs = match build_ast_from_term(next_int_token) {
            Ok(term) => term,
            Err(e) => {
                return Err(e);
            },
        };
        folded =
        Some(
            Box::new(
                ASTNode::Expression { lhs, operator: Some(operator), rhs: Some(Box::new(rhs)) },
            ),
        );
        at = at + 2;
    }
}

/// Builds the statement of a `return_stmt` node: it returns the expression
/// that begins at the node's first child.
///
/// Fails with the expression's error, and with `UnexpectedConstruct` where
/// `pair` is no `return_stmt` node or has no child.
pub fn build_ast_from_stmt(pair: &CstNode) -> (r: Result<ASTNode, BuildError>)
    ensures
        built(r) == statement_ast(pair@),
        r matches Ok(tree) ==> tree@.well_formed(),
{
    proof {
        pair.view_children();
        reveal_with_fuel(ast_of, 2);
    }
    match pair.rule {
        Rule::return_stmt => match build_ast_from_expression(&pair.children, 0, None) {
            Ok(expression) => Ok(ASTNode::ReturnStatement(Box::new(expression))),
            Err(e) => Err(e),
        },
        _ => Err(BuildError::UnexpectedConstruct { found: Some(pair.rule) }),
    }
}

/// Whether `children` is a run of terms with an additive operator between
/// each two of them.
pub open spec fn is_term_run(children: Seq<Cst>) -> bool {
    &&& children.len() % 2 == 1
    &&& forall|i: int|
        0 <= i < children.len() ==> (#[trigger] children[i]).rule == if i % 2 == 0 {
            Rule::term
        } else {
            Rule::additive_operator
        }
}

/// The tree of a run with its last operator and its last term taken apart:
/// the run before them, folded, is the left-hand side of that operator, and
/// that term is its right-hand side.
pub open spec fn last_fold(children: Seq<Cst>, current: int, folded: Option<Ast>) -> Result<
    Ast,
    BuildError,
> {
    let n = children.len() as int;
    match expression_ast(children.take(n - 2), current, folded) {
        Err(e) => Err(e),
        Ok(lhs) => match binary_operator_of(children[n - 2].text) {
            Err(e) => Err(e),
            Ok(operator) => match term_ast(children[n - 1]) {
                Err(e) => Err(e),
                Ok(rhs) => Ok(
                    Ast::Expression {
                        lhs: Box::new(lhs),
                        operator: Some(operator),
                        rhs: Some(Box::new(rhs)),
                    },
                ),
            },
        },
    }
}

/// A chain of additive operators leans to the left: the tree of a run of
/// terms and operators has the tree of everything before the last operator
/// as its left-hand side, and the last term as its right-hand side. The run
/// fails exactly when one of these three parts does.
pub proof fn chain_leans_left(children: Seq<Cst>, current: int, folded: Option<Ast>)
    requires
        is_term_run(children),
        0 <= current,
        current % 2 == 0,
        current + 2 < children.len(),
    ensures
        expression_ast(children, current, folded) is Ok ==> expression_ast(
            children,
            current,
            folded,
        ) == last_fold(children, current, folded),
        expression_ast(children, current, folded) is Err ==> last_fold(
            children,
            current,
            folded,
        ) is Err,
    decreases children.len() - current,
{
    reveal_with_fuel(expression_ast, 3);
    let n = children.len() as int;
    let before = children.take(n - 2);
    assert(before[current] == children[current]);
    if current + 3 < n {
        assert(before[current + 1] == children[current + 1]);
        assert(before[current + 2] == children[current + 2]);
        if let Ok(operator) = binary_operator_of(children[current + 1].text) {
            if let Ok(lhs) = folded_or_term(folded, children[current]) {
                if let Ok(rhs) = term_ast(children[current + 2]) {
                    chain_leans_left(
                        children,
                        current + 2,
                        Some(
                            Ast::Expression {
                                lhs: Box::new(lhs),
                                operator: Some(operator),
                                rhs: Some(Box::new(rhs)),
                            },
                        ),
                    );
                }
            }
        }
    }
}

/// Where the first `n` nodes already fail, the whole run fails in the same
/// way.
proof fn statements_fail_fast(nodes: Seq<Cst>, n: int)
    requires
        0 <= n <= nodes.len(),
        statements_ast(nodes.take(n)) is Err,
    ensures
        statements_ast(nodes) == statements_ast(nodes.take(n)),
    decreases nodes.len() - n,
{
    if n < nodes.len() {
        assert(nodes.take(n + 1).drop_last() =~= nodes.take(n));
        statements_fail_fast(nodes, n + 1);
    } else {
        assert(nodes.take(n) =~= nodes);
    }
}

/// Where the first `n` nodes already fail, the whole program fails in the
/// same way.
proof fn program_fails_fast(nodes: Seq<Cst>, n: int)
    requires
        0 <= n <= nodes.len(),
        program_ast(nodes.take(n)) is Err,
    ensures
        program_ast(nodes) == program_ast(nodes.take(n)),
    decreases nodes.len() - n,
{
    if n < nodes.len() {
        assert(nodes.take(n + 1).drop_last() =~= nodes.take(n));
        program_fails_fast(nodes, n + 1);
    } else {
        assert(nodes.take(n) =~= nodes);
    }
}

/// Builds the function of a `function` node. The texts of the first two
/// children become its return type and its name, unchanged; each child
/// after them is built as a statement, in order.
///
/// Fails with the error of the first statement that has one, and with
/// `UnexpectedConstruct` where `pair` is no `function` node or has fewer
/// than two children.
pub fn build_ast_from_toplvl(pair: &CstNode) -> (r: Result<ASTNode, BuildError>)
    ensures
        built(r) == function_ast(pair@),
        r matches Ok(tree) ==> tree@.well_formed(),
{
    proof {
        pair.view_children();
        functions_are_well_formed(pair@);
    }
    match pair.rule {
        Rule::function => {},
        _ => {
            return Err(BuildError::UnexpectedConstruct { found: Some(pair.rule) });
        },
    }
    if pair.children.len() < 2 {
        return Err(BuildError::UnexpectedConstruct { found: None });
    }
    let datatype = pair.children[0].text.clone();
    let identifier = pair.children[1].text.clone();
    let mut statements: Vec<ASTNode> = Vec::new();
    let ghost nodes = pair@.children.skip(2);
    let mut i: usize = 2;
    proof {
        assert(ast_seq(statements@) =~= Seq::<Ast>::empty());
    }
    while i < pair.children.len()
        invariant
            2 <= i <= pair.children.len(),
            pair@.rule == Rule::function,
            pair@.children == cst_seq(pair.children@),
            nodes == pair@.children.skip(2),
            statements_ast(nodes.take(i - 2)) == Ok::<Seq<Ast>, BuildError>(ast_seq(statements@)),
        decreases pair.children.len() - i,
    {
        proof {
            assert(nodes.take(i - 2 + 1).drop_last() =~= nodes.take(i - 2));
            assert(nodes.take(i - 2 + 1).last() == pair.children[i as int]@);
        }
        match build_ast_from_stmt(&pair.children[i]) {
            Ok(statement) => {
                proof {
                    assert(ast_seq(statements@).push(statement@) =~= ast_seq(
                        statements@.push(statement),
                    ));
                }
                statements.push(statement);
            },
            Err(e) => {
                proof {
                    statements_fail_fast(nodes, i - 2 + 1);
                }
                return Err(e);
            },
        }
        i = i + 1;
    }
    let tree = ASTNode::Function { return_type: datatype, identifier, statements };
    proof {
        assert(nodes.take(i - 2) =~= nodes);
        assert(pair@.children[0] == pair.children[0]@);
        assert(pair@.children[1] == pair.children[1]@);
        assert(tree@->statements =~= ast_seq(statements@));
    }
    Ok(tree)
}

/// Builds the functions of a program from its top-level nodes: each
/// `function` node in turn, passing over every other node.
///
/// Fails with the error of the first function that has one, and then
/// returns none of the others.
pub fn build_ast_from_program(nodes: &Vec<CstNode>) -> (r: Result<Vec<ASTNode>, BuildError>)
    ensures
        built_run(r) == program_ast(cst_seq(nodes@)),
        r matches Ok(trees) ==> forall|i: int|
            0 <= i < trees.len() ==> (#[trigger] trees[i]@) is Function && trees[i]@.well_formed(),
{
    let ghost run = cst_seq(nodes@);
    let mut ast: Vec<ASTNode> = Vec::new();
    let mut i: usize = 0;
    proof {
        assert(ast_seq(ast@) =~= Seq::<Ast>::empty());
    }
    while i < nodes.len()
        invariant
            i <= nodes.len(),
            run == cst_seq(nodes@),
            program_ast(run.take(i as int)) == Ok::<Seq<Ast>, BuildError>(ast_seq(ast@)),
            forall|j: int|
                0 <= j < ast.len() ==> (#[trigger] ast[j]@) is Function && ast[j]@.well_formed(),
        decreases nodes.len() - i,
    {
        proof {
            assert(run.take(i + 1).drop_last() =~= run.take(i as int));
            assert(run.take(i + 1).last() == nodes[i as int]@);
        }
        let pair = &nodes[i];
        match pair.rule {
            Rule::function => match build_ast_from_toplvl(pair) {
                Ok(function) => {
                    proof {
                        functions_are_well_formed(pair@);
                        assert(ast_seq(ast@).push(function@) =~= ast_seq(ast@.push(function)));
                    }
                    ast.push(function);
                },
                Err(e) => {
                    proof {
                        program_fails_fast(run, i + 1);
                    }
                    return Err(e);
                },
            },
            _ => {},
        }
        i = i + 1;
    }
    proof {
        assert(run.take(i as int) =~= run);
    }
    Ok(ast)
}

} // verus!
