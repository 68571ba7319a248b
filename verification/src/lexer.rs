//! The matcher: from source text to the concrete syntax tree.

use vstd::prelude::*;
use vstd::string::{is_ascii, StrSliceExecFns};
use crate::cst::{cst_seq, Cst, CstNode, Rule};
use crate::error::GrammarMismatch;
use crate::grammar::{
    additive_tail, digits_end, functions_tail, grammar_match, has_char, has_text, has_word,
    is_additive_symbol, is_letter, is_unary_symbol, is_whitespace, is_word_char, leaf,
    match_additive_operator, match_datatype, match_expression, match_factor, match_function,
    match_identifier, match_number, match_return_stmt, match_term, match_unary_operator, node,
    number_end, one_node, skip_whitespace, statement_advances, statements_tail, term_advances,
    function_advances, word_end, word_end_bounds,
};
use crate::literal::digit_of;
use crate::text::chars_of;

verus! {

/// What a rule of one node gave, with the node taken by its model.
spec fn matched(r: Result<(CstNode, usize), usize>) -> Result<(Cst, int), int> {
    match r {
        Ok((node, end)) => Ok((node@, end as int)),
        Err(failed) => Err(failed as int),
    }
}

/// What the matcher gave, with the nodes taken by their models.
pub open spec fn parsed(r: Result<Vec<CstNode>, GrammarMismatch>) -> Result<Seq<Cst>, int> {
    match r {
        Ok(nodes) => Ok(cst_seq(nodes@)),
        Err(mismatch) => Err(mismatch.position as int),
    }
}

/// The models of a run that grew by one node.
proof fn pushed(nodes: Seq<CstNode>, last: CstNode)
    ensures
        cst_seq(nodes.push(last)) == cst_seq(nodes).push(last@),
{
    assert(cst_seq(nodes.push(last)) =~= cst_seq(nodes).push(last@));
}

/// Whether `c` is whitespace.
fn is_whitespace_char(c: char) -> (b: bool)
    ensures
        b == is_whitespace(c),
{
    c == ' ' || c == '\t' || c == '\n' || c == '\r'
}

/// Whether `c` is a letter.
fn is_letter_char(c: char) -> (b: bool)
    ensures
        b == is_letter(c),
{
    ('a' <= c && c <= 'z') || ('A' <= c && c <= 'Z')
}

/// Whether `c` can stand in a word.
fn is_word_character(c: char) -> (b: bool)
    ensures
        b == is_word_char(c),
{
    is_letter_char(c) || ('0' <= c && c <= '9') || c == '_'
}

/// Whether `c` is the symbol of a unary operator.
fn is_unary_char(c: char) -> (b: bool)
    ensures
        b == is_unary_symbol(c),
{
    c == '-' || c == '!' || c == '~'
}

/// Whether `c` is the symbol of an additive operator.
fn is_additive_char(c: char) -> (b: bool)
    ensures
        b == is_additive_symbol(c),
{
    c == '+' || c == '-'
}

/// Whether `c` stands at offset `at`.
fn has_char_at(chars: &Vec<char>, at: usize, c: char) -> (b: bool)
    ensures
        b == has_char(chars@, at as int, c),
{
    at < chars.len() && chars[at] == c
}

/// Whether the characters `wanted` stand at offset `at`.
fn has_chars_at(chars: &Vec<char>, at: usize, wanted: &Vec<char>) -> (b: bool)
    ensures
        b == has_text(chars@, at as int, wanted@),
        b ==> at + wanted.len() <= chars.len(),
{
    if at > chars.len() || chars.len() - at < wanted.len() {
        return false;
    }
    let ghost found = chars@.subrange(at as int, at + wanted.len());
    let mut i: usize = 0;
    while i < wanted.len()
        invariant
            i <= wanted.len(),
            at + wanted.len() <= chars.len(),
            found == chars@.subrange(at as int, at + wanted.len()),
            forall|j: int| 0 <= j < i ==> found[j] == wanted[j],
        decreases wanted.len() - i,
    {
        if chars[at + i] != wanted[i] {
            assert(found[i as int] != wanted[i as int]);
            return false;
        }
        i = i + 1;
    }
    assert(found =~= wanted@);
    true
}

/// Where `word` ends, if it stands at offset `at` and ends there.
fn word_at(chars: &Vec<char>, at: usize, word: &str) -> (end: Option<usize>)
    ensures
        end is Some == has_word(chars@, at as int, word@),
        end matches Some(end) ==> end == at + word@.len() && end <= chars.len(),
{
    let wanted = chars_of(word);
    if !has_chars_at(chars, at, &wanted) {
        return None;
    }
    let behind = at + wanted.len();
    if behind < chars.len() && is_word_character(chars[behind]) {
        None
    } else {
        Some(behind)
    }
}

/// The first offset from `at` on that holds no whitespace.
fn skip_whitespace_at(chars: &Vec<char>, at: usize) -> (next: usize)
    requires
        at <= chars.len(),
    ensures
        next == skip_whitespace(chars@, at as int),
        at <= next <= chars.len(),
{
    let mut next = at;
    while next < chars.len() && is_whitespace_char(chars[next])
        invariant
            at <= next <= chars.len(),
            skip_whitespace(chars@, next as int) == skip_whitespace(chars@, at as int),
        decreases chars.len() - next,
    {
        next = next + 1;
    }
    next
}

/// The first offset from `at` on that holds no digit of base `radix`.
fn digits_end_at(chars: &Vec<char>, at: usize, radix: u32) -> (end: usize)
    requires
        at <= chars.len(),
    ensures
        end == digits_end(chars@, at as int, radix as int),
        at <= end <= chars.len(),
{
    let mut end = at;
    while end < chars.len() && digit_of(chars[end]) < radix
        invariant
            at <= end <= chars.len(),
            digits_end(chars@, end as int, radix as int) == digits_end(
                chars@,
                at as int,
                radix as int,
            ),
        decreases chars.len() - end,
    {
        end = end + 1;
    }
    end
}

/// The first offset from `at` on that holds no character of a word.
fn word_end_at(chars: &Vec<char>, at: usize) -> (end: usize)
    requires
        at <= chars.len(),
    ensures
        end == word_end(chars@, at as int),
        at <= end <= chars.len(),
{
    let mut end = at;
    while end < chars.len() && is_word_character(chars[end])
        invariant
            at <= end <= chars.len(),
            word_end(chars@, end as int) == word_end(chars@, at as int),
        decreases chars.len() - end,
    {
        end = end + 1;
    }
    end
}

/// Every character is at least the character of code zero.
proof fn no_char_is_below_zero(c: char)
    ensures
        '\0' <= c,
{
}

/// A source text, made ready for matching.
struct Input<'a> {
    /// The whole text.
    source: &'a str,
    /// Its characters, for reading the one at an offset.
    chars: Vec<char>,
    /// Its longest beginning without a character outside ASCII. A stretch of
    /// it is cut out in constant time.
    plain: &'a str,
    /// The number of characters of `plain`.
    plain_len: usize,
}

impl<'a> Input<'a> {
    /// Whether the parts belong to one text.
    spec fn well_formed(&self) -> bool {
        &&& self.chars@ == self.source@
        &&& self.plain_len <= self.chars.len()
        &&& self.plain@ == self.chars@.take(self.plain_len as int)
        &&& is_ascii(self.plain)
    }

    /// Makes `source` ready for matching.
    fn new(source: &'a str) -> (input: Self)
        ensures
            input.well_formed(),
            input.chars@ == source@,
    {
        let chars = chars_of(source);
        let mut plain_len: usize = 0;
        while plain_len < chars.len() && chars[plain_len] <= '\u{7f}'
            invariant
                plain_len <= chars.len(),
                forall|i: int| 0 <= i < plain_len ==> chars[i] <= '\u{7f}',
            decreases chars.len() - plain_len,
        {
            plain_len = plain_len + 1;
        }
        let plain = source.substring_char(0, plain_len);
        proof {
            assert(plain@ =~= chars@.take(plain_len as int));
            assert forall|i: int| 0 <= i < plain@.len() implies '\0' <= #[trigger] plain@[i]
                <= '\u{7f}' by {
                assert(plain@[i] == chars[i]);
                no_char_is_below_zero(chars[i]);
            }
        }
        Input { source, chars, plain, plain_len }
    }

    /// The text from `from` to `to`.
    fn cut(&self, from: usize, to: usize) -> (text: String)
        requires
            self.well_formed(),
            from <= to <= self.chars.len(),
        ensures
            text@ == self.chars@.subrange(from as int, to as int),
    {
        if to <= self.plain_len {
            let text = self.plain.substring_ascii(from, to).to_owned();
            assert(text@ =~= self.chars@.subrange(from as int, to as int));
            text
        } else {
            self.source.substring_char(from, to).to_owned()
        }
    }
}

/// The node of `rule` for the text from `from` to `to`.
fn node_at(input: &Input, rule: Rule, from: usize, to: usize, children: Vec<CstNode>) -> (made:
    CstNode)
    requires
        input.well_formed(),
        from <= to <= input.chars.len(),
    ensures
        made@ == node(rule, input.chars@, from as int, to as int, cst_seq(children@)),
{
    let made = CstNode { rule, text: input.cut(from, to), children };
    proof {
        made.view_children();
    }
    made
}

/// The node of `rule` for the text from `from` to `to`, without children.
fn leaf_at(input: &Input, rule: Rule, from: usize, to: usize) -> (made: CstNode)
    requires
        input.well_formed(),
        from <= to <= input.chars.len(),
    ensures
        made@ == leaf(rule, input.chars@, from as int, to as int),
{
    let children: Vec<CstNode> = Vec::new();
    assert(cst_seq(children@) =~= Seq::<Cst>::empty());
    node_at(input, rule, from, to, children)
}

/// Where the number at `at` ends, if one stands there.
fn number_end_at(chars: &Vec<char>, at: usize) -> (end: Option<usize>)
    requires
        at <= chars.len(),
    ensures
        match end {
            Some(end) => number_end(chars@, at as int) == Some(end as int) && at < end
                <= chars.len(),
            None => number_end(chars@, at as int) is None,
        },
{
    proof {
        let zero_b = seq!['0', 'b'];
        let zero_x = seq!['0', 'x'];
        assert(zero_b.len() == 2 && zero_b[0] == '0' && zero_b[1] == 'b');
        assert(zero_x.len() == 2 && zero_x[0] == '0' && zero_x[1] == 'x');
        if at + 2 <= chars.len() {
            let found = chars@.subrange(at as int, at + 2);
            assert(found[0] == chars[at as int] && found[1] == chars[at + 1]);
            if chars[at as int] == '0' && chars[at + 1] == 'b' {
                assert(found =~= zero_b);
            }
            if chars[at as int] == '0' && chars[at + 1] == 'x' {
                assert(found =~= zero_x);
            }
        }
    }
    let prefixed = chars.len() - at >= 2 && chars[at] == '0';
    if prefixed && chars[at + 1] == 'b' {
        let end = digits_end_at(chars, at + 2, 2);
        if end > at + 2 {
            return Some(end);
        }
    }
    if prefixed && chars[at + 1] == 'x' {
        let end = digits_end_at(chars, at + 2, 16);
        if end > at + 2 {
            return Some(end);
        }
    }
    let end = digits_end_at(chars, at, 10);
    if end > at {
        Some(end)
    } else {
        None
    }
}

/// Matches a number at `at`.
fn number_at(input: &Input, at: usize) -> (r: Result<(CstNode, usize), usize>)
    requires
        input.well_formed(),
        at <= input.chars.len(),
    ensures
        matched(r) == match_number(input.chars@, at as int),
{
    match number_end_at(&input.chars, at) {
        Some(end) => Ok((leaf_at(input, Rule::number, at, end), end)),
        None => Err(at),
    }
}

/// Matches a unary operator at `at`.
fn unary_operator_at(input: &Input, at: usize) -> (r: Result<(CstNode, usize), usize>)
    requires
        input.well_formed(),
        at <= input.chars.len(),
    ensures
        matched(r) == match_unary_operator(input.chars@, at as int),
{
    if at < input.chars.len() && is_unary_char(input.chars[at]) {
        Ok((leaf_at(input, Rule::unary_operator, at, at + 1), at + 1))
    } else {
        Err(at)
    }
}

/// Matches an additive operator at `at`.
fn additive_operator_at(input: &Input, at: usize) -> (r: Result<(CstNode, usize), usize>)
    requires
        input.well_formed(),
        at <= input.chars.len(),
    ensures
        matched(r) == match_additive_operator(input.chars@, at as int),
{
    if at < input.chars.len() && is_additive_char(input.chars[at]) {
        Ok((leaf_at(input, Rule::additive_operator, at, at + 1), at + 1))
    } else {
        Err(at)
    }
}

/// Matches a return type at `at`.
fn datatype_at(input: &Input, at: usize) -> (r: Result<(CstNode, usize), usize>)
    requires
        input.well_formed(),
        at <= input.chars.len(),
    ensures
        matched(r) == match_datatype(input.chars@, at as int),
{
    match word_at(&input.chars, at, "int") {
        Some(end) => Ok((leaf_at(input, Rule::datatype, at, end), end)),
        None => Err(at),
    }
}

/// Matches a name at `at`.
fn identifier_at(input: &Input, at: usize) -> (r: Result<(CstNode, usize), usize>)
    requires
        input.well_formed(),
        at <= input.chars.len(),
    ensures
        matched(r) == match_identifier(input.chars@, at as int),
{
    if at < input.chars.len() && (is_letter_char(input.chars[at]) || input.chars[at] == '_') {
        let end = word_end_at(&input.chars, at);
        Ok((leaf_at(input, Rule::identifier, at, end), end))
    } else {
        Err(at)
    }
}

/// Matches a factor at `at`.
fn factor_at(input: &Input, at: usize) -> (r: Result<(CstNode, usize), usize>)
    requires
        input.well_formed(),
        at <= input.chars.len(),
    ensures
        matched(r) == match_factor(input.chars@, at as int),
    decreases input.chars.len() - at, 0nat,
{
    if at < input.chars.len() && is_unary_char(input.chars[at]) {
        let operator = leaf_at(input, Rule::unary_operator, at, at + 1);
        let start = skip_whitespace_at(&input.chars, at + 1);
        match term_at(input, start) {
            Err(failed) => Err(failed),
            Ok((term, end)) => {
                proof {
                    term_advances(input.chars@, start as int);
                }
                let mut children: Vec<CstNode> = Vec::new();
                children.push(operator);
                children.push(term);
                assert(cst_seq(children@) =~= seq![operator@, term@]);
                Ok((node_at(input, Rule::factor, at, end, children), end))
            },
        }
    } else {
        match number_at(input, at) {
            Err(failed) => Err(failed),
            Ok((number, end)) => {
                proof {
                    term_advances(input.chars@, at as int);
                }
                let mut children: Vec<CstNode> = Vec::new();
                children.push(number);
                assert(cst_seq(children@) =~= seq![number@]);
                Ok((node_at(input, Rule::factor, at, end, children), end))
            },
        }
    }
}

/// Matches a term at `at`.
fn term_at(input: &Input, at: usize) -> (r: Result<(CstNode, usize), usize>)
    requires
        input.well_formed(),
        at <= input.chars.len(),
    ensures
        matched(r) == match_term(input.chars@, at as int),
    decreases input.chars.len() - at, 1nat,
{
    match factor_at(input, at) {
        Err(failed) => Err(failed),
        Ok((factor, end)) => {
            proof {
                term_advances(input.chars@, at as int);
            }
            let mut children: Vec<CstNode> = Vec::new();
            children.push(factor);
            assert(cst_seq(children@) =~= seq![factor@]);
            Ok((node_at(input, Rule::term, at, end, children), end))
        },
    }
}

/// Matches an expression at `at`: a term, and then operators and terms for
/// as long as an additive operator follows.
fn expression_at(input: &Input, at: usize) -> (r: Result<(CstNode, usize), usize>)
    requires
        input.well_formed(),
        at <= input.chars.len(),
    ensures
        matched(r) == match_expression(input.chars@, at as int),
{
    let (first, behind) = match term_at(input, at) {
        Err(failed) => {
            return Err(failed);
        },
        Ok(found) => found,
    };
    proof {
        term_advances(input.chars@, at as int);
    }
    let ghost whole = additive_tail(input.chars@, behind as int, seq![first@]);
    let mut children: Vec<CstNode> = Vec::new();
    children.push(first);
    assert(cst_seq(children@) =~= seq![first@]);
    let mut end = behind;
    let mut symbol = skip_whitespace_at(&input.chars, end);
    while symbol < input.chars.len() && is_additive_char(input.chars[symbol])
        invariant
            input.well_formed(),
            at <= end <= symbol <= input.chars.len(),
            symbol == skip_whitespace(input.chars@, end as int),
            match_term(input.chars@, at as int) == Ok::<(Cst, int), int>((first@, behind as int)),
            whole == additive_tail(input.chars@, behind as int, seq![first@]),
            additive_tail(input.chars@, end as int, cst_seq(children@)) == whole,
        decreases input.chars.len() - end,
    {
        let operator = leaf_at(input, Rule::additive_operator, symbol, symbol + 1);
        let start = skip_whitespace_at(&input.chars, symbol + 1);
        proof {
            term_advances(input.chars@, start as int);
            pushed(children@, operator);
        }
        match term_at(input, start) {
            Err(failed) => {
                return Err(failed);
            },
            Ok((term, next)) => {
                proof {
                    pushed(children@.push(operator), term);
                }
                children.push(operator);
                children.push(term);
                end = next;
                symbol = skip_whitespace_at(&input.chars, end);
            },
        }
    }
    Ok((node_at(input, Rule::expression, at, end, children), end))
}

/// Matches a return statement at `at`.
fn return_stmt_at(input: &Input, at: usize) -> (r: Result<(CstNode, usize), usize>)
    requires
        input.well_formed(),
        at <= input.chars.len(),
    ensures
        matched(r) == match_return_stmt(input.chars@, at as int),
{
    let behind_word = match word_at(&input.chars, at, "return") {
        Some(end) => end,
        None => {
            return Err(at);
        },
    };
    let start = skip_whitespace_at(&input.chars, behind_word);
    match expression_at(input, start) {
        Err(failed) => Err(failed),
        Ok((expression, behind)) => {
            proof {
                statement_advances(input.chars@, start as int);
            }
            let semicolon = skip_whitespace_at(&input.chars, behind);
            if has_char_at(&input.chars, semicolon, ';') {
                let mut children: Vec<CstNode> = Vec::new();
                children.push(expression);
                assert(cst_seq(children@) =~= seq![expression@]);
                Ok((node_at(input, Rule::return_stmt, at, semicolon + 1, children), semicolon + 1))
            } else {
                Err(semicolon)
            }
        },
    }
}

/// Matches a function at `at`: its head, and then statements up to the
/// closing brace.
fn function_at(input: &Input, at: usize) -> (r: Result<(CstNode, usize), usize>)
    requires
        input.well_formed(),
        at <= input.chars.len(),
    ensures
        matched(r) == match_function(input.chars@, at as int),
{
    let (datatype, behind_type) = match datatype_at(input, at) {
        Err(failed) => {
            return Err(failed);
        },
        Ok(found) => found,
    };
    let name = skip_whitespace_at(&input.chars, behind_type);
    let (identifier, behind_name) = match identifier_at(input, name) {
        Err(failed) => {
            return Err(failed);
        },
        Ok(found) => found,
    };
    proof {
        word_end_bounds(input.chars@, name as int);
    }
    let opening = skip_whitespace_at(&input.chars, behind_name);
    if !has_char_at(&input.chars, opening, '(') {
        return Err(opening);
    }
    let closing = skip_whitespace_at(&input.chars, opening + 1);
    if !has_char_at(&input.chars, closing, ')') {
        return Err(closing);
    }
    let brace = skip_whitespace_at(&input.chars, closing + 1);
    if !has_char_at(&input.chars, brace, '{') {
        return Err(brace);
    }
    let ghost whole = statements_tail(input.chars@, brace + 1, seq![datatype@, identifier@]);
    let ghost closed = match whole {
        Err(failed) => Err(failed),
        Ok((children, end)) => if has_char(input.chars@, end, '}') {
            Ok((node(Rule::function, input.chars@, at as int, end + 1, children), end + 1))
        } else {
            Err(end)
        },
    };
    assert(match_function(input.chars@, at as int) == closed);
    let mut children: Vec<CstNode> = Vec::new();
    children.push(datatype);
    children.push(identifier);
    assert(cst_seq(children@) =~= seq![datatype@, identifier@]);
    let mut end = brace + 1;
    let mut next = skip_whitespace_at(&input.chars, end);
    while next < input.chars.len() && input.chars[next] != '}'
        invariant
            input.well_formed(),
            at <= end <= next <= input.chars.len(),
            next == skip_whitespace(input.chars@, end as int),
            statements_tail(input.chars@, end as int, cst_seq(children@)) == whole,
            match_function(input.chars@, at as int) == closed,
            closed == match whole {
                Err(failed) => Err(failed),
                Ok((children, end)) => if has_char(input.chars@, end, '}') {
                    Ok((node(Rule::function, input.chars@, at as int, end + 1, children), end + 1))
                } else {
                    Err(end)
                },
            },
        decreases input.chars.len() - end,
    {
        proof {
            statement_advances(input.chars@, next as int);
        }
        match return_stmt_at(input, next) {
            Err(failed) => {
                return Err(failed);
            },
            Ok((statement, behind)) => {
                proof {
                    pushed(children@, statement);
                }
                children.push(statement);
                end = behind;
                next = skip_whitespace_at(&input.chars, end);
            },
        }
    }
    if has_char_at(&input.chars, next, '}') {
        Ok((node_at(input, Rule::function, at, next + 1, children), next + 1))
    } else {
        Err(next)
    }
}

/// Matches a program: functions up to the end of the text, and the `EOI`
/// node.
fn program_at(input: &Input) -> (r: Result<Vec<CstNode>, usize>)
    requires
        input.well_formed(),
    ensures
        match r {
            Ok(nodes) => functions_tail(input.chars@, 0, Seq::empty()) == Ok::<Seq<Cst>, int>(
                cst_seq(nodes@),
            ),
            Err(failed) => functions_tail(input.chars@, 0, Seq::empty()) == Err::<Seq<Cst>, int>(
                failed as int,
            ),
        },
{
    let mut nodes: Vec<CstNode> = Vec::new();
    assert(cst_seq(nodes@) =~= Seq::<Cst>::empty());
    let mut end: usize = 0;
    let mut next = skip_whitespace_at(&input.chars, end);
    while next < input.chars.len()
        invariant
            input.well_formed(),
            end <= next <= input.chars.len(),
            next == skip_whitespace(input.chars@, end as int),
            functions_tail(input.chars@, end as int, cst_seq(nodes@)) == functions_tail(
                input.chars@,
                0,
                Seq::empty(),
            ),
        decreases input.chars.len() - end,
    {
        proof {
            function_advances(input.chars@, next as int);
        }
        match function_at(input, next) {
            Err(failed) => {
                return Err(failed);
            },
            Ok((function, behind)) => {
                proof {
                    pushed(nodes@, function);
                }
                nodes.push(function);
                end = behind;
                next = skip_whitespace_at(&input.chars, end);
            },
        }
    }
    let last = leaf_at(input, Rule::EOI, next, next);
    proof {
        pushed(nodes@, last);
    }
    nodes.push(last);
    Ok(nodes)
}

/// The nodes of a rule that matched one node.
fn one(found: Result<(CstNode, usize), usize>) -> (r: Result<Vec<CstNode>, usize>)
    ensures
        match r {
            Ok(nodes) => one_node(matched(found)) == Ok::<Seq<Cst>, int>(cst_seq(nodes@)),
            Err(failed) => one_node(matched(found)) == Err::<Seq<Cst>, int>(failed as int),
        },
{
    match found {
        Ok((node, _)) => {
            let mut nodes: Vec<CstNode> = Vec::new();
            nodes.push(node);
            assert(cst_seq(nodes@) =~= seq![node@]);
            Ok(nodes)
        },
        Err(failed) => Err(failed),
    }
}

/// The matcher of the grammar. It holds no state.
pub struct CParser;

impl CParser {
    /// Matches `rule` at the beginning of `source`. Gives the nodes that
    /// were matched: for `Rule::program` the program's functions followed by
    /// the `EOI` node, for any other rule its one node. Fails with the
    /// offset of the first character that the rule could not accept.
    pub fn parse(rule: Rule, source: &str) -> (r: Result<Vec<CstNode>, GrammarMismatch>)
        ensures
            parsed(r) == grammar_match(rule, source@),
    {
        let input = Input::new(source);
        let found = match rule {
            Rule::EOI => if input.chars.len() == 0 {
                one(Ok((leaf_at(&input, Rule::EOI, 0, 0), 0)))
            } else {
                Err(0)
            },
            Rule::program => program_at(&input),
            Rule::function => one(function_at(&input, 0)),
            Rule::datatype => one(datatype_at(&input, 0)),
            Rule::identifier => one(identifier_at(&input, 0)),
            Rule::return_stmt => one(return_stmt_at(&input, 0)),
            Rule::expression => one(expression_at(&input, 0)),
            Rule::term => one(term_at(&input, 0)),
            Rule::factor => one(factor_at(&input, 0)),
            Rule::number => one(number_at(&input, 0)),
            Rule::unary_operator => one(unary_operator_at(&input, 0)),
            Rule::additive_operator => one(additive_operator_at(&input, 0)),
        };
        match found {
            Ok(nodes) => Ok(nodes),
            Err(failed) => Err(GrammarMismatch { position: failed }),
        }
    }
}

} // verus!
