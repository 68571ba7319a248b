use minic::parser;
use minic::parser::{
    ASTNode, BinaryOperator, BuildError, CParser, CstNode, GrammarMismatch, ParseError, Rule,
    UnaryOperator,
};

fn literal(value: i16) -> ASTNode {
    ASTNode::Factor { literal: Some(Box::new(ASTNode::Integer(value))), operator: None, expression: None }
}

fn term(factor: ASTNode) -> ASTNode {
    ASTNode::Term { lhs: Box::new(factor), operator: None, rhs: None }
}

fn unary(operator: UnaryOperator, operand: ASTNode) -> ASTNode {
    ASTNode::Factor { literal: None, operator: Some(operator), expression: Some(Box::new(operand)) }
}

fn binary(lhs: ASTNode, operator: BinaryOperator, rhs: ASTNode) -> ASTNode {
    ASTNode::Expression { lhs: Box::new(lhs), operator: Some(operator), rhs: Some(Box::new(rhs)) }
}

fn main_returning(expression: ASTNode) -> Vec<ASTNode> {
    vec![ASTNode::Function {
        return_type: "int".to_string(),
        identifier: "main".to_string(),
        statements: vec![ASTNode::ReturnStatement(Box::new(expression))],
    }]
}

const VALID_RETURN_PROGRAMS: [&str; 6] = [
    "int main() {\n    return 100;\n}",
    "\nint \nmain\n(   \n)\n{\nreturn\n0\n;\n}",
    "int main(){return 0;}",
    "int main() {\n    return 0;\n}",
    "int main() {\n    return 2;\n}",
    "   int   main    (  )  {   return  0 ; }",
];

const INVALID_RETURN_PROGRAMS: [&str; 6] = [
    "int main( {\n    return 0;\n}",
    "int main() {\n    return;\n}",
    "int main() {\n    return 0;\n",
    "int main() {\n    return 0\n}",
    "int main() {\n    return0;\n}",
    "int main() {\n    RETURN 0;\n}",
];

const VALID_UNARY_PROGRAMS: [&str; 7] = [
    "int main() {\n    return !12;\n}",
    "int main() {\n    return ~0;\n}",
    "int main() {\n    return -5;\n}",
    "int main() {\n    return !-3;\n}",
    "int main() {\n    return -~0;\n}",
    "int main() {\n    return !5;\n}",
    "int main() {\n    return !0;\n}",
];

const INVALID_UNARY_PROGRAMS: [&str; 4] = [
    "int main() {\n    return !;\n}",
    "int main() {\n    return !5\n}",
    "int main() {\n    return !~;\n}",
    "int main() {\n    return 4-;\n}",
];

#[test]
fn parser_test_empty_program() {
    let _parsed = CParser::parse(Rule::program, "int main() {}").unwrap();
}

#[test]
fn parser_test_return_decimal_program() {
    let _parsed = CParser::parse(Rule::program, "int main() {
            return 55;
        }").unwrap();
}

#[test]
fn parser_test_return_hex_program() {
    let _parsed = CParser::parse(Rule::program, "int main() {
            return 0xEf7;
        }").unwrap();
}

#[test]
fn test_basic_valid_return_programs() {
    let _parsed = CParser::parse(Rule::program, "int main() {
            return 0b110011;
        }").unwrap();
}

#[test]
fn test_parse_basic_program() {
    for source in VALID_RETURN_PROGRAMS {
        let ast = parser::parse(source).unwrap();
        match ast[0].clone() {
            parser::ASTNode::Function { return_type, identifier, statements } => {
                assert_eq!(return_type, "int");
                assert_eq!(identifier, "main");
                assert_eq!(statements.len(), 1);
            },

            _ => panic!("Node {:?} should be a function", ast[0]),
        };
    }
}

#[test]
fn test_basic_invalid_return_programs() {
    for source in INVALID_RETURN_PROGRAMS {
        match parser::parse(source) {
            Ok(_) => panic!("Invalid C file {} should fail but did not!", source),
            Err(_) => {},
        }
    }
}

#[test]
fn test_parse_valid_unary_op_program() {
    for source in VALID_UNARY_PROGRAMS {
        let _ = parser::parse(source).unwrap();
    }
}

#[test]
fn test_parse_invalid_unary_op_program() {
    for source in INVALID_UNARY_PROGRAMS {
        match parser::parse(source) {
            Ok(_) => panic!("Invalid C file {} should fail but did not!", source),
            Err(_) => {},
        }
    }
}

#[test]
fn literals_of_each_base() {
    assert_eq!(parser::convert_str_to_int("0xEf7"), Ok(3831));
    assert_eq!(parser::convert_str_to_int("0b110011"), Ok(51));
    assert_eq!(parser::convert_str_to_int("55"), Ok(55));
    assert_eq!(parser::convert_str_to_int("0"), Ok(0));
    assert_eq!(parser::convert_str_to_int("0x0"), Ok(0));
    assert_eq!(parser::convert_str_to_int("0b0"), Ok(0));
    assert_eq!(parser::convert_str_to_int("0x1aB"), Ok(427));
    assert_eq!(parser::convert_str_to_int("0x7FfF"), Ok(32767));
    assert_eq!(parser::convert_str_to_int("0000000000000000000000000000000000000012"), Ok(12));
}

#[test]
fn literals_at_the_edges_of_the_range() {
    assert_eq!(parser::convert_str_to_int("32767"), Ok(32767));
    assert_eq!(parser::convert_str_to_int("32768"), Err(BuildError::LiteralOutOfRange));
    assert_eq!(parser::convert_str_to_int("0x7fff"), Ok(32767));
    assert_eq!(parser::convert_str_to_int("0x8000"), Err(BuildError::LiteralOutOfRange));
    assert_eq!(parser::convert_str_to_int("0b111111111111111"), Ok(32767));
    assert_eq!(parser::convert_str_to_int("0b1000000000000000"), Err(BuildError::LiteralOutOfRange));
    assert_eq!(
        parser::convert_str_to_int("99999999999999999999999999999999999999999999"),
        Err(BuildError::LiteralOutOfRange)
    );
    assert_eq!(
        parser::convert_str_to_int("0xffffffffffffffffffffffffffffffffffff"),
        Err(BuildError::LiteralOutOfRange)
    );
}

#[test]
fn literals_with_a_sign() {
    assert_eq!(parser::convert_str_to_int("-5"), Ok(-5));
    assert_eq!(parser::convert_str_to_int("+5"), Ok(5));
    assert_eq!(parser::convert_str_to_int("-32768"), Ok(-32768));
    assert_eq!(parser::convert_str_to_int("-32769"), Err(BuildError::LiteralOutOfRange));
    assert_eq!(parser::convert_str_to_int("0x-8000"), Ok(-32768));
    assert_eq!(parser::convert_str_to_int("0b+101"), Ok(5));
    assert_eq!(parser::convert_str_to_int("-0"), Ok(0));
}

#[test]
fn malformed_literals() {
    for text in ["", "0b", "0x", "+", "-", "0b+", "12a", "0b102", "0xfg", "1 2", " 12", "12 ", "--1",
        "0X1F", "0B11", "-0x1", "1_000", "\u{663}"]
    {
        assert_eq!(parser::convert_str_to_int(text), Err(BuildError::LiteralMalformed), "{:?}", text);
    }
    assert_eq!(
        parser::convert_str_to_int("99999999999999999999x"),
        Err(BuildError::LiteralMalformed)
    );
}

#[test]
fn unary_operators() {
    assert_eq!(parser::get_node_from_unary_operator("-"), Ok(UnaryOperator::Negation));
    assert_eq!(parser::get_node_from_unary_operator("!"), Ok(UnaryOperator::LogicalNeg));
    assert_eq!(parser::get_node_from_unary_operator("~"), Ok(UnaryOperator::Complement));
    for symbol in ["", "+", "--", "- ", "not", "\u{2212}"] {
        assert_eq!(parser::get_node_from_unary_operator(symbol), Err(BuildError::UnknownOperator));
    }
}

#[test]
fn binary_operators() {
    assert_eq!(parser::get_node_from_binary_operator("+"), Ok(BinaryOperator::Add));
    assert_eq!(parser::get_node_from_binary_operator("-"), Ok(BinaryOperator::Subtract));
    assert_eq!(parser::get_node_from_binary_operator("*"), Ok(BinaryOperator::Multiply));
    assert_eq!(parser::get_node_from_binary_operator("/"), Ok(BinaryOperator::Divide));
    for symbol in ["", "%", "++", "+ ", "!", "~"] {
        assert_eq!(parser::get_node_from_binary_operator(symbol), Err(BuildError::UnknownOperator));
    }
}

#[test]
fn empty_function_has_no_statements() {
    let ast = parser::parse("int main() {}").unwrap();
    assert_eq!(
        ast,
        vec![ASTNode::Function {
            return_type: "int".to_string(),
            identifier: "main".to_string(),
            statements: vec![],
        }]
    );
}

#[test]
fn empty_text_has_no_functions() {
    assert_eq!(parser::parse(""), Ok(vec![]));
    assert_eq!(parser::parse("  \n"), Ok(vec![]));
}

#[test]
fn single_return_of_a_literal() {
    assert_eq!(parser::parse("int main() { return 55; }"), Ok(main_returning(term(literal(55)))));
    assert_eq!(
        parser::parse("int main() { return 0xEf7; }"),
        Ok(main_returning(term(literal(3831))))
    );
    assert_eq!(
        parser::parse("int main() { return 0b110011; }"),
        Ok(main_returning(term(literal(51))))
    );
}

#[test]
fn unary_operator_wraps_its_operand() {
    let ast = parser::parse("int main() { return -5; }").unwrap();
    assert_eq!(ast, main_returning(term(unary(UnaryOperator::Negation, term(literal(5))))));
}

#[test]
fn unary_operators_nest() {
    let ast = parser::parse("int main() { return !-~3; }").unwrap();
    let inner = term(unary(UnaryOperator::Complement, term(literal(3))));
    let middle = term(unary(UnaryOperator::Negation, inner));
    assert_eq!(ast, main_returning(term(unary(UnaryOperator::LogicalNeg, middle))));
}

#[test]
fn additive_chain_leans_to_the_left() {
    let ast = parser::parse("int main() { return 1+2-3; }").unwrap();
    let sum = binary(term(literal(1)), BinaryOperator::Add, term(literal(2)));
    assert_eq!(ast, main_returning(binary(sum, BinaryOperator::Subtract, term(literal(3)))));
}

#[test]
fn longer_chain_keeps_source_order() {
    let ast = parser::parse("int main() { return 1 - 2 + 3 - -4; }").unwrap();
    let first = binary(term(literal(1)), BinaryOperator::Subtract, term(literal(2)));
    let second = binary(first, BinaryOperator::Add, term(literal(3)));
    let last = term(unary(UnaryOperator::Negation, term(literal(4))));
    assert_eq!(ast, main_returning(binary(second, BinaryOperator::Subtract, last)));
}

#[test]
fn unary_operator_binds_tighter_than_addition() {
    let ast = parser::parse("int main() { return -1 + 2; }").unwrap();
    let negated = term(unary(UnaryOperator::Negation, term(literal(1))));
    assert_eq!(ast, main_returning(binary(negated, BinaryOperator::Add, term(literal(2)))));
}

#[test]
fn functions_and_statements_keep_source_order() {
    let ast = parser::parse("int one() { return 1; return 2; } int two() { return 3; }").unwrap();
    let statement = |value: i16| ASTNode::ReturnStatement(Box::new(term(literal(value))));
    assert_eq!(
        ast,
        vec![
            ASTNode::Function {
                return_type: "int".to_string(),
                identifier: "one".to_string(),
                statements: vec![statement(1), statement(2)],
            },
            ASTNode::Function {
                return_type: "int".to_string(),
                identifier: "two".to_string(),
                statements: vec![statement(3)],
            },
        ]
    );
}

#[test]
fn grammar_mismatch_carries_the_offset() {
    assert_eq!(
        parser::parse("int main() { return 1 }"),
        Err(ParseError::Grammar(GrammarMismatch { position: 22 }))
    );
    assert_eq!(
        parser::parse("void main() { return 1; }"),
        Err(ParseError::Grammar(GrammarMismatch { position: 0 }))
    );
    assert_eq!(
        parser::parse("int main() { return 1 * 2; }"),
        Err(ParseError::Grammar(GrammarMismatch { position: 22 }))
    );
}

#[test]
fn out_of_range_literal_fails_the_whole_program() {
    assert_eq!(
        parser::parse("int main() { return 32768; }"),
        Err(ParseError::Build(BuildError::LiteralOutOfRange))
    );
    assert_eq!(
        parser::parse("int fine() { return 1; } int main() { return 1 + 0x10000; }"),
        Err(ParseError::Build(BuildError::LiteralOutOfRange))
    );
    assert_eq!(
        parser::parse("int main() { return -32768; }"),
        Err(ParseError::Build(BuildError::LiteralOutOfRange))
    );
}
