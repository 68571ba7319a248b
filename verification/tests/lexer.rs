use minic::cst::{CstNode, Rule};
use minic::error::GrammarMismatch;
use minic::lexer::CParser;

fn leaf(rule: Rule, text: &str) -> CstNode {
    CstNode { rule, text: text.to_string(), children: vec![] }
}

fn node(rule: Rule, text: &str, children: Vec<CstNode>) -> CstNode {
    CstNode { rule, text: text.to_string(), children }
}

#[test]
fn lexer_test_empty_program() {
    let _parsed = CParser::parse(Rule::program, "int main() {}").unwrap();
}

#[test]
fn lexer_test_return_decimal_program() {
    let _parsed = CParser::parse(Rule::program, "int main() {
            return 55;
        }").unwrap();
}

#[test]
fn lexer_test_return_hex_program() {
    let _parsed = CParser::parse(Rule::program, "int main() {
            return 0xEf7;
        }").unwrap();
}

#[test]
fn test_return_binary_program() {
    let _parsed = CParser::parse(Rule::program, "int main() {
            return 0b110011;
        }").unwrap();
}

#[test]
fn number_rule_matches_the_digits_at_the_start() {
    let parsed = CParser::parse(Rule::number, "273").unwrap();
    assert_eq!(parsed, vec![leaf(Rule::number, "273")]);
    let parsed = CParser::parse(Rule::number, "273 and more").unwrap();
    assert_eq!(parsed, vec![leaf(Rule::number, "273")]);
}

#[test]
fn number_rule_rejects_other_text() {
    let parsed = CParser::parse(Rule::number, "this is not a number");
    assert_eq!(parsed, Err(GrammarMismatch { position: 0 }));
}

#[test]
fn number_rule_reads_each_base() {
    assert_eq!(CParser::parse(Rule::number, "0xEf7;").unwrap(), vec![leaf(Rule::number, "0xEf7")]);
    assert_eq!(
        CParser::parse(Rule::number, "0b110011+1").unwrap(),
        vec![leaf(Rule::number, "0b110011")]
    );
    assert_eq!(CParser::parse(Rule::number, "0912x").unwrap(), vec![leaf(Rule::number, "0912")]);
}

#[test]
fn base_prefix_needs_a_digit_of_its_base() {
    assert_eq!(CParser::parse(Rule::number, "0b2").unwrap(), vec![leaf(Rule::number, "0")]);
    assert_eq!(CParser::parse(Rule::number, "0xg").unwrap(), vec![leaf(Rule::number, "0")]);
    assert_eq!(CParser::parse(Rule::number, "0b").unwrap(), vec![leaf(Rule::number, "0")]);
    assert_eq!(CParser::parse(Rule::number, "0X1F").unwrap(), vec![leaf(Rule::number, "0")]);
}

#[test]
fn empty_program_has_the_two_names_and_the_end() {
    let parsed = CParser::parse(Rule::program, "int main() {}").unwrap();
    let function = node(
        Rule::function,
        "int main() {}",
        vec![leaf(Rule::datatype, "int"), leaf(Rule::identifier, "main")],
    );
    assert_eq!(parsed, vec![function, leaf(Rule::EOI, "")]);
}

#[test]
fn empty_text_is_an_empty_program() {
    assert_eq!(CParser::parse(Rule::program, "").unwrap(), vec![leaf(Rule::EOI, "")]);
    assert_eq!(CParser::parse(Rule::program, " \n\t\r ").unwrap(), vec![leaf(Rule::EOI, "")]);
    assert_eq!(CParser::parse(Rule::EOI, "").unwrap(), vec![leaf(Rule::EOI, "")]);
    assert_eq!(CParser::parse(Rule::EOI, "x"), Err(GrammarMismatch { position: 0 }));
}

#[test]
fn return_statement_tree() {
    let parsed = CParser::parse(Rule::return_stmt, "return -5 + 0x1F ;").unwrap();
    let five = node(
        Rule::term,
        "5",
        vec![node(Rule::factor, "5", vec![leaf(Rule::number, "5")])],
    );
    let negated = node(
        Rule::term,
        "-5",
        vec![node(Rule::factor, "-5", vec![leaf(Rule::unary_operator, "-"), five])],
    );
    let hex = node(
        Rule::term,
        "0x1F",
        vec![node(Rule::factor, "0x1F", vec![leaf(Rule::number, "0x1F")])],
    );
    let expression = node(
        Rule::expression,
        "-5 + 0x1F",
        vec![negated, leaf(Rule::additive_operator, "+"), hex],
    );
    assert_eq!(parsed, vec![node(Rule::return_stmt, "return -5 + 0x1F ;", vec![expression])]);
}

#[test]
fn whitespace_between_items_is_passed_over() {
    let spaced = CParser::parse(Rule::program, "\n int\tmain ( )\r\n{ return ~ 1 ; } \n").unwrap();
    assert_eq!(spaced.len(), 2);
    assert_eq!(spaced[0].rule, Rule::function);
    assert_eq!(spaced[0].text, "int\tmain ( )\r\n{ return ~ 1 ; }");
    assert_eq!(spaced[0].children.len(), 3);
    assert_eq!(spaced[0].children[2].text, "return ~ 1 ;");
    assert_eq!(spaced[1].rule, Rule::EOI);
}

#[test]
fn several_functions_and_statements() {
    let parsed =
        CParser::parse(Rule::program, "int a(){return 1;return 2;} int b(){} int _c1(){return 3;}")
            .unwrap();
    assert_eq!(parsed.len(), 4);
    assert_eq!(parsed[0].children.len(), 4);
    assert_eq!(parsed[1].children.len(), 2);
    assert_eq!(parsed[2].children[1].text, "_c1");
    assert_eq!(parsed[3].rule, Rule::EOI);
}

#[test]
fn mismatch_offset_is_where_the_text_stops_matching() {
    let at = |source: &str| CParser::parse(Rule::program, source).unwrap_err().position;
    assert_eq!(at("int main() { return 1 }"), 22);
    assert_eq!(at("int main() { return 1 + ; }"), 24);
    assert_eq!(at("int main() { return; }"), 19);
    assert_eq!(at("int main() { return0; }"), 13);
    assert_eq!(at("int main() { RETURN 0; }"), 13);
    assert_eq!(at("int main( { return 0; }"), 10);
    assert_eq!(at("int main() { return 0;"), 22);
    assert_eq!(at("int main() { return 0; } x"), 25);
    assert_eq!(at("intmain() { return 0; }"), 0);
    assert_eq!(at("int 1main() { return 0; }"), 4);
    assert_eq!(at("int main() { return -; }"), 21);
    assert_eq!(at("int main() { return 1 * 2; }"), 22);
    assert_eq!(at("int main() { return (1); }"), 20);
    assert_eq!(at("int main() { return \u{e9}; }"), 20);
}

#[test]
fn text_outside_the_grammar_is_a_mismatch() {
    let parsed = CParser::parse(Rule::program, "int main() { return 1; } \u{e9}");
    assert_eq!(parsed, Err(GrammarMismatch { position: 25 }));
}

#[test]
fn each_rule_can_be_matched_alone() {
    assert_eq!(CParser::parse(Rule::datatype, "int x").unwrap(), vec![leaf(Rule::datatype, "int")]);
    assert_eq!(CParser::parse(Rule::datatype, "integer"), Err(GrammarMismatch { position: 0 }));
    assert_eq!(
        CParser::parse(Rule::identifier, "main_2()").unwrap(),
        vec![leaf(Rule::identifier, "main_2")]
    );
    assert_eq!(CParser::parse(Rule::identifier, "2main"), Err(GrammarMismatch { position: 0 }));
    assert_eq!(
        CParser::parse(Rule::unary_operator, "!1").unwrap(),
        vec![leaf(Rule::unary_operator, "!")]
    );
    assert_eq!(CParser::parse(Rule::unary_operator, "+1"), Err(GrammarMismatch { position: 0 }));
    assert_eq!(
        CParser::parse(Rule::additive_operator, "+1").unwrap(),
        vec![leaf(Rule::additive_operator, "+")]
    );
    assert_eq!(
        CParser::parse(Rule::additive_operator, "*1"),
        Err(GrammarMismatch { position: 0 })
    );
    assert_eq!(CParser::parse(Rule::term, "~0b1 rest").unwrap()[0].text, "~0b1");
    assert_eq!(CParser::parse(Rule::factor, "! ~ - 7").unwrap()[0].text, "! ~ - 7");
    assert_eq!(CParser::parse(Rule::expression, "1-2 ;").unwrap()[0].text, "1-2");
    assert_eq!(CParser::parse(Rule::expression, "1 - "), Err(GrammarMismatch { position: 4 }));
    assert_eq!(
        CParser::parse(Rule::function, "int f(){} trailing").unwrap()[0].text,
        "int f(){}"
    );
}

#[test]
fn a_copy_of_a_node_is_equal_to_it() {
    let parsed = CParser::parse(Rule::program, "int main() { return 1 + 2; }").unwrap();
    assert_eq!(parsed[0].clone(), parsed[0]);
}

#[test]
fn text_beyond_ascii_is_cut_whole() {
    let parsed = CParser::parse(Rule::identifier, "ab\u{e9}").unwrap();
    assert_eq!(parsed, vec![leaf(Rule::identifier, "ab")]);
    let parsed = CParser::parse(Rule::number, "12\u{663}").unwrap();
    assert_eq!(parsed, vec![leaf(Rule::number, "12")]);
}
