use minic::ast::{ASTNode, BinaryOperator, UnaryOperator};
use minic::builder::{
    build_ast_from_expression, build_ast_from_factor, build_ast_from_program, build_ast_from_stmt,
    build_ast_from_term, build_ast_from_toplvl,
};
use minic::cst::{CstNode, Rule};
use minic::error::BuildError;

fn leaf(rule: Rule, text: &str) -> CstNode {
    CstNode { rule, text: text.to_string(), children: vec![] }
}

fn node(rule: Rule, children: Vec<CstNode>) -> CstNode {
    CstNode { rule, text: String::new(), children }
}

fn number(text: &str) -> CstNode {
    node(Rule::term, vec![node(Rule::factor, vec![leaf(Rule::number, text)])])
}

fn plus() -> CstNode {
    leaf(Rule::additive_operator, "+")
}

fn literal(value: i16) -> ASTNode {
    ASTNode::Term {
        lhs: Box::new(ASTNode::Factor {
            literal: Some(Box::new(ASTNode::Integer(value))),
            operator: None,
            expression: None,
        }),
        operator: None,
        rhs: None,
    }
}

fn binary(lhs: ASTNode, operator: BinaryOperator, rhs: ASTNode) -> ASTNode {
    ASTNode::Expression { lhs: Box::new(lhs), operator: Some(operator), rhs: Some(Box::new(rhs)) }
}

fn unexpected(rule: Rule) -> BuildError {
    BuildError::UnexpectedConstruct { found: Some(rule) }
}

fn missing() -> BuildError {
    BuildError::UnexpectedConstruct { found: None }
}

#[test]
fn factor_of_a_number() {
    let factor = node(Rule::factor, vec![leaf(Rule::number, "0x10")]);
    assert_eq!(
        build_ast_from_factor(&factor),
        Ok(ASTNode::Factor {
            literal: Some(Box::new(ASTNode::Integer(16))),
            operator: None,
            expression: None,
        })
    );
}

#[test]
fn factor_of_an_operator_and_a_term() {
    let factor = node(Rule::factor, vec![leaf(Rule::unary_operator, "~"), number("7")]);
    assert_eq!(
        build_ast_from_factor(&factor),
        Ok(ASTNode::Factor {
            literal: None,
            operator: Some(UnaryOperator::Complement),
            expression: Some(Box::new(literal(7))),
        })
    );
}

#[test]
fn factor_operand_may_be_a_run_or_an_expression() {
    let run =
        node(Rule::factor, vec![leaf(Rule::unary_operator, "-"), number("1"), plus(), number("2")]);
    let sum = binary(literal(1), BinaryOperator::Add, literal(2));
    let expected = ASTNode::Factor {
        literal: None,
        operator: Some(UnaryOperator::Negation),
        expression: Some(Box::new(sum)),
    };
    assert_eq!(build_ast_from_factor(&run), Ok(expected.clone()));
    let wrapped = node(
        Rule::factor,
        vec![
            leaf(Rule::unary_operator, "-"),
            node(Rule::expression, vec![number("1"), plus(), number("2")]),
        ],
    );
    assert_eq!(build_ast_from_factor(&wrapped), Ok(expected));
}

#[test]
fn factor_of_another_shape_is_unexpected() {
    assert_eq!(build_ast_from_factor(&number("1")), Err(unexpected(Rule::term)));
    assert_eq!(build_ast_from_factor(&node(Rule::factor, vec![])), Err(missing()));
    assert_eq!(
        build_ast_from_factor(&node(Rule::factor, vec![number("1")])),
        Err(unexpected(Rule::term))
    );
    assert_eq!(
        build_ast_from_factor(&node(Rule::factor, vec![leaf(Rule::unary_operator, "-")])),
        Err(missing())
    );
    assert_eq!(
        build_ast_from_factor(&node(
            Rule::factor,
            vec![leaf(Rule::unary_operator, "-"), leaf(Rule::number, "1")]
        )),
        Err(unexpected(Rule::number))
    );
}

#[test]
fn factor_passes_on_the_errors_of_its_parts() {
    let unknown = node(Rule::factor, vec![leaf(Rule::unary_operator, "+"), number("1")]);
    assert_eq!(build_ast_from_factor(&unknown), Err(BuildError::UnknownOperator));
    let alone = node(Rule::factor, vec![leaf(Rule::unary_operator, "?")]);
    assert_eq!(build_ast_from_factor(&alone), Err(BuildError::UnknownOperator));
    let malformed = node(Rule::factor, vec![leaf(Rule::number, "12a")]);
    assert_eq!(build_ast_from_factor(&malformed), Err(BuildError::LiteralMalformed));
    let large = node(Rule::factor, vec![leaf(Rule::number, "40000")]);
    assert_eq!(build_ast_from_factor(&large), Err(BuildError::LiteralOutOfRange));
    let inside = node(Rule::factor, vec![leaf(Rule::unary_operator, "-"), number("0x")]);
    assert_eq!(build_ast_from_factor(&inside), Err(BuildError::LiteralMalformed));
}

#[test]
fn term_wraps_its_first_factor() {
    assert_eq!(build_ast_from_term(&number("9")), Ok(literal(9)));
    let two = node(
        Rule::term,
        vec![
            node(Rule::factor, vec![leaf(Rule::number, "9")]),
            leaf(Rule::number, "ignored"),
        ],
    );
    assert_eq!(build_ast_from_term(&two), Ok(literal(9)));
}

#[test]
fn term_of_another_shape_is_unexpected() {
    assert_eq!(build_ast_from_term(&leaf(Rule::number, "9")), Err(unexpected(Rule::number)));
    assert_eq!(build_ast_from_term(&node(Rule::term, vec![])), Err(missing()));
    assert_eq!(
        build_ast_from_term(&node(Rule::term, vec![leaf(Rule::number, "9")])),
        Err(unexpected(Rule::number))
    );
}

#[test]
fn expression_of_one_term_is_the_term() {
    assert_eq!(build_ast_from_expression(&vec![number("4")], 0, None), Ok(literal(4)));
}

#[test]
fn expression_folds_from_the_left() {
    let run = vec![
        number("1"),
        plus(),
        number("2"),
        leaf(Rule::additive_operator, "-"),
        number("3"),
    ];
    let sum = binary(literal(1), BinaryOperator::Add, literal(2));
    assert_eq!(
        build_ast_from_expression(&run, 0, None),
        Ok(binary(sum, BinaryOperator::Subtract, literal(3)))
    );
}

#[test]
fn expression_starts_at_the_current_node() {
    let run = vec![leaf(Rule::unary_operator, "-"), number("1"), plus(), number("2")];
    assert_eq!(
        build_ast_from_expression(&run, 1, None),
        Ok(binary(literal(1), BinaryOperator::Add, literal(2)))
    );
    assert_eq!(build_ast_from_expression(&run, 3, None), Ok(literal(2)));
}

#[test]
fn expression_goes_on_from_what_was_folded() {
    let folded = binary(literal(8), BinaryOperator::Add, literal(9));
    let run = vec![number("9"), plus(), number("3")];
    assert_eq!(
        build_ast_from_expression(&run, 0, Some(Box::new(folded.clone()))),
        Ok(binary(folded.clone(), BinaryOperator::Add, literal(3)))
    );
    assert_eq!(
        build_ast_from_expression(&run, 2, Some(Box::new(folded.clone()))),
        Ok(folded)
    );
}

#[test]
fn expression_node_is_built_from_its_children() {
    let inner = node(Rule::expression, vec![number("1"), plus(), number("2")]);
    let run = vec![inner, plus(), number("3")];
    let folded = literal(7);
    assert_eq!(
        build_ast_from_expression(&run, 0, Some(Box::new(folded))),
        Ok(binary(literal(1), BinaryOperator::Add, literal(2)))
    );
}

#[test]
fn expression_takes_every_binary_symbol() {
    let run = vec![number("6"), leaf(Rule::additive_operator, "*"), number("7")];
    assert_eq!(
        build_ast_from_expression(&run, 0, None),
        Ok(binary(literal(6), BinaryOperator::Multiply, literal(7)))
    );
    let run = vec![number("6"), leaf(Rule::additive_operator, "/"), number("7")];
    assert_eq!(
        build_ast_from_expression(&run, 0, None),
        Ok(binary(literal(6), BinaryOperator::Divide, literal(7)))
    );
}

#[test]
fn expression_of_another_shape_is_unexpected() {
    assert_eq!(build_ast_from_expression(&vec![], 0, None), Err(missing()));
    assert_eq!(build_ast_from_expression(&vec![number("1")], 1, None), Err(missing()));
    assert_eq!(build_ast_from_expression(&vec![number("1")], usize::MAX, None), Err(missing()));
    assert_eq!(
        build_ast_from_expression(&vec![leaf(Rule::number, "1")], 0, None),
        Err(unexpected(Rule::number))
    );
    assert_eq!(
        build_ast_from_expression(&vec![number("1"), number("2")], 0, None),
        Err(unexpected(Rule::term))
    );
    assert_eq!(build_ast_from_expression(&vec![number("1"), plus()], 0, None), Err(missing()));
    assert_eq!(
        build_ast_from_expression(&vec![number("1"), plus(), leaf(Rule::number, "2")], 0, None),
        Err(unexpected(Rule::number))
    );
    assert_eq!(
        build_ast_from_expression(&vec![node(Rule::expression, vec![])], 0, None),
        Err(missing())
    );
}

#[test]
fn expression_reports_its_first_error() {
    let percent = leaf(Rule::additive_operator, "%");
    assert_eq!(
        build_ast_from_expression(&vec![number("1"), percent.clone(), number("2")], 0, None),
        Err(BuildError::UnknownOperator)
    );
    assert_eq!(
        build_ast_from_expression(&vec![number("1"), percent.clone()], 0, None),
        Err(missing())
    );
    assert_eq!(
        build_ast_from_expression(&vec![number("x"), percent, number("99999")], 0, None),
        Err(BuildError::UnknownOperator)
    );
    assert_eq!(
        build_ast_from_expression(&vec![number("x"), plus(), number("99999")], 0, None),
        Err(BuildError::LiteralMalformed)
    );
    assert_eq!(
        build_ast_from_expression(&vec![number("1"), plus(), number("99999")], 0, None),
        Err(BuildError::LiteralOutOfRange)
    );
    assert_eq!(
        build_ast_from_expression(
            &vec![number("1"), plus(), number("2"), plus(), number("99999")],
            0,
            None
        ),
        Err(BuildError::LiteralOutOfRange)
    );
}

#[test]
fn statement_returns_its_expression() {
    let statement =
        node(Rule::return_stmt, vec![node(Rule::expression, vec![number("1"), plus(), number("2")])]);
    assert_eq!(
        build_ast_from_stmt(&statement),
        Ok(ASTNode::ReturnStatement(Box::new(binary(literal(1), BinaryOperator::Add, literal(2)))))
    );
}

#[test]
fn statement_of_another_shape_is_unexpected() {
    assert_eq!(build_ast_from_stmt(&number("1")), Err(unexpected(Rule::term)));
    assert_eq!(build_ast_from_stmt(&node(Rule::return_stmt, vec![])), Err(missing()));
    assert_eq!(
        build_ast_from_stmt(&node(Rule::return_stmt, vec![leaf(Rule::number, "1")])),
        Err(unexpected(Rule::number))
    );
}

#[test]
fn function_takes_its_names_as_they_are() {
    let function = node(
        Rule::function,
        vec![
            leaf(Rule::number, "unsigned long"),
            leaf(Rule::term, "2 names"),
            node(Rule::return_stmt, vec![number("1")]),
            node(Rule::return_stmt, vec![number("2")]),
        ],
    );
    assert_eq!(
        build_ast_from_toplvl(&function),
        Ok(ASTNode::Function {
            return_type: "unsigned long".to_string(),
            identifier: "2 names".to_string(),
            statements: vec![
                ASTNode::ReturnStatement(Box::new(literal(1))),
                ASTNode::ReturnStatement(Box::new(literal(2))),
            ],
        })
    );
}

#[test]
fn function_of_another_shape_is_unexpected() {
    assert_eq!(build_ast_from_toplvl(&leaf(Rule::EOI, "")), Err(unexpected(Rule::EOI)));
    assert_eq!(build_ast_from_toplvl(&node(Rule::function, vec![])), Err(missing()));
    assert_eq!(
        build_ast_from_toplvl(&node(Rule::function, vec![leaf(Rule::datatype, "int")])),
        Err(missing())
    );
    let function = node(
        Rule::function,
        vec![leaf(Rule::datatype, "int"), leaf(Rule::identifier, "f"), number("1")],
    );
    assert_eq!(build_ast_from_toplvl(&function), Err(unexpected(Rule::term)));
}

#[test]
fn function_reports_its_first_failing_statement() {
    let function = node(
        Rule::function,
        vec![
            leaf(Rule::datatype, "int"),
            leaf(Rule::identifier, "f"),
            node(Rule::return_stmt, vec![number("1")]),
            node(Rule::return_stmt, vec![number("70000")]),
            node(Rule::return_stmt, vec![number("nothing")]),
        ],
    );
    assert_eq!(build_ast_from_toplvl(&function), Err(BuildError::LiteralOutOfRange));
}

#[test]
fn program_passes_over_what_is_no_function() {
    let function = |name: &str| {
        node(Rule::function, vec![leaf(Rule::datatype, "int"), leaf(Rule::identifier, name)])
    };
    let built = |name: &str| ASTNode::Function {
        return_type: "int".to_string(),
        identifier: name.to_string(),
        statements: vec![],
    };
    let nodes = vec![number("1"), function("a"), leaf(Rule::EOI, ""), function("b"), plus()];
    assert_eq!(build_ast_from_program(&nodes), Ok(vec![built("a"), built("b")]));
    assert_eq!(build_ast_from_program(&vec![]), Ok(vec![]));
    assert_eq!(build_ast_from_program(&vec![leaf(Rule::EOI, "")]), Ok(vec![]));
}

#[test]
fn program_fails_with_its_first_failing_function() {
    let good = node(Rule::function, vec![leaf(Rule::datatype, "int"), leaf(Rule::identifier, "a")]);
    let short = node(Rule::function, vec![leaf(Rule::datatype, "int")]);
    let large = node(
        Rule::function,
        vec![
            leaf(Rule::datatype, "int"),
            leaf(Rule::identifier, "b"),
            node(Rule::return_stmt, vec![number("70000")]),
        ],
    );
    assert_eq!(build_ast_from_program(&vec![good.clone(), short.clone(), large.clone()]), Err(missing()));
    assert_eq!(
        build_ast_from_program(&vec![good, large, short]),
        Err(BuildError::LiteralOutOfRange)
    );
}

#[test]
fn a_copy_of_a_tree_is_equal_to_it() {
    let function = ASTNode::Function {
        return_type: "int".to_string(),
        identifier: "main".to_string(),
        statements: vec![ASTNode::ReturnStatement(Box::new(binary(
            literal(1),
            BinaryOperator::Add,
            literal(2),
        )))],
    };
    assert_eq!(function.clone(), function);
}
