// The parser: which tree a source text is read as, and which texts are
// refused.

use tiny_interpreter::interpreter::ast::AbstractSyntaxTree;
use tiny_interpreter::interpreter::ast::BinaryOp;
use tiny_interpreter::interpreter::ast::Block;
use tiny_interpreter::interpreter::ast::Comparator;
use tiny_interpreter::interpreter::ast::Condition;
use tiny_interpreter::interpreter::ast::Expression;
use tiny_interpreter::interpreter::ast::Ident;
use tiny_interpreter::interpreter::ast::IfStatement;
use tiny_interpreter::interpreter::ast::Literal;
use tiny_interpreter::interpreter::ast::Operator;
use tiny_interpreter::interpreter::ast::Statement;
use tiny_interpreter::interpreter::ast::UnaryOp;
use tiny_interpreter::interpreter::lexer::LexError;
use tiny_interpreter::interpreter::lexer::Lexer;
use tiny_interpreter::interpreter::parser::ParseError;
use tiny_interpreter::interpreter::parser::Parser;
use tiny_interpreter::interpreter::token::TokenType;

fn parse(source: &str) -> Result<AbstractSyntaxTree, ParseError> {
    Parser::new(Lexer::new(source.chars().collect())).parse()
}

// A tree written on one line, with every operation in brackets.
fn expression(e: &Expression) -> String {
    match e {
        Expression::Literal(Literal::String(text)) => format!("{:?}", text),
        Expression::Literal(Literal::Number(text)) => text.clone(),
        Expression::Ident(ident) => ident.symbol.clone(),
        Expression::BinaryOp(op) => format!(
            "({} {} {})",
            expression(&op.left_term),
            operator(op.operator),
            expression(&op.right_term)
        ),
        Expression::UnaryOp(op) => format!("({}{})", operator(op.operator), expression(&op.term)),
    }
}

fn operator(op: Operator) -> &'static str {
    match op {
        Operator::Plus => "+",
        Operator::Minus => "-",
        Operator::Times => "*",
        Operator::Divides => "/",
    }
}

fn condition(c: &Condition) -> String {
    let comparator = match c.comparator {
        Comparator::Equal => "==",
        Comparator::NotEqual => "!=",
        Comparator::GreaterThan => ">",
        Comparator::GreaterThanOrEqual => ">=",
        Comparator::LessThan => "<",
        Comparator::LessThanOrEqual => "<=",
    };
    format!("{} {} {}", expression(&c.left_expression), comparator, expression(&c.right_expression))
}

fn block(b: &Block) -> String {
    let mut parts = Vec::new();
    for i in 0..b.get_length() {
        parts.push(statement(b.get_statement(i)));
    }
    format!("{{{}}}", parts.join(" "))
}

fn chain(c: &IfStatement) -> String {
    match c {
        IfStatement::If(test, body, other) => {
            format!("if {} {}{}", condition(test), block(body), rest(other))
        }
        IfStatement::ElseIf(test, body, other) => {
            format!("elseif {} {}{}", condition(test), block(body), rest(other))
        }
        IfStatement::Else(body) => format!("else {}", block(body)),
    }
}

fn rest(other: &Option<Box<IfStatement>>) -> String {
    match other {
        Some(next) => format!(" {}", chain(next)),
        None => String::new(),
    }
}

fn statement(s: &Statement) -> String {
    match s {
        Statement::Print(e) => format!("print {};", expression(e)),
        Statement::Let(ident, e) => format!("let {} = {};", ident.symbol, expression(e)),
        Statement::Assignment(ident, e) => format!("{} = {};", ident.symbol, expression(e)),
        Statement::If(c) => chain(c),
        Statement::While(test, body) => format!("while {} {}", condition(test), block(body)),
    }
}

fn tree(source: &str) -> String {
    match parse(source) {
        Ok(tree) => block(&tree.block),
        Err(error) => panic!("{:?}", error),
    }
}

fn refused(source: &str) -> ParseError {
    match parse(source) {
        Ok(tree) => panic!("read as {}", block(&tree.block)),
        Err(error) => error,
    }
}

#[test]
fn empty_program() {
    assert_eq!(tree(""), "{}");
    assert_eq!(tree("  \n "), "{}");
}

#[test]
fn multiplication_binds_tighter() {
    assert_eq!(tree("print 2 + 3 * 4;"), "{print (2 + (3 * 4));}");
    assert_eq!(tree("print 2 * 3 + 4;"), "{print ((2 * 3) + 4);}");
    assert_eq!(tree("print 1 + 2 / 3 - 4;"), "{print ((1 + (2 / 3)) - 4);}");
}

#[test]
fn operators_of_one_level_join_to_the_left() {
    assert_eq!(tree("print 8 - 3 - 2;"), "{print ((8 - 3) - 2);}");
    assert_eq!(tree("print 8 / 4 * 2 / 1;"), "{print (((8 / 4) * 2) / 1);}");
    assert_eq!(tree("print a + b - c + d;"), "{print (((a + b) - c) + d);}");
}

#[test]
fn a_sign_binds_tightest() {
    assert_eq!(tree("print -a * +2;"), "{print ((-a) * (+2));}");
    assert_eq!(tree("print 1 - -1;"), "{print (1 - (-1));}");
    assert_eq!(tree("print 1 + + 1;"), "{print (1 + (+1));}");
}

#[test]
fn only_one_sign_is_taken() {
    assert_eq!(
        refused("print --1;"),
        ParseError::ExpectedPrimary { found: TokenType::MINUS }
    );
}

#[test]
fn a_string_is_a_whole_expression() {
    assert_eq!(tree("print \"a b\";"), "{print \"a b\";}");
    assert_eq!(
        refused("print \"a\" + 1;"),
        ParseError::UnexpectedToken { expected: TokenType::SEMICOLON, found: TokenType::PLUS }
    );
    assert_eq!(
        refused("print 1 + \"a\";"),
        ParseError::ExpectedPrimary { found: TokenType::STRING }
    );
}

#[test]
fn there_are_no_parentheses() {
    assert_eq!(
        refused("print (1 + 2) * 3;"),
        ParseError::ExpectedPrimary { found: TokenType::ILLEGAL }
    );
}

#[test]
fn declaration_and_assignment() {
    assert_eq!(tree("let x = 1; x = x + 1;"), "{let x = 1; x = (x + 1);}");
    assert_eq!(tree("LET Name = \"Ann\";"), "{let Name = \"Ann\";}");
}

#[test]
fn let_needs_a_name() {
    assert_eq!(
        refused("let 1 = 2;"),
        ParseError::UnexpectedToken { expected: TokenType::IDENT, found: TokenType::NUMBER }
    );
    assert_eq!(
        refused("let print = 2;"),
        ParseError::UnexpectedToken { expected: TokenType::IDENT, found: TokenType::PRINT }
    );
}

#[test]
fn missing_equals_and_semicolon() {
    assert_eq!(
        refused("let x 1;"),
        ParseError::UnexpectedToken { expected: TokenType::EQ, found: TokenType::NUMBER }
    );
    assert_eq!(
        refused("x == 1;"),
        ParseError::UnexpectedToken { expected: TokenType::EQ, found: TokenType::EQEQ }
    );
    assert_eq!(
        refused("print 1"),
        ParseError::UnexpectedToken { expected: TokenType::SEMICOLON, found: TokenType::EOF }
    );
    assert_eq!(
        refused("print 1 print 2;"),
        ParseError::UnexpectedToken { expected: TokenType::SEMICOLON, found: TokenType::PRINT }
    );
}

#[test]
fn what_begins_no_statement() {
    assert_eq!(refused("1;"), ParseError::InvalidStatement { found: TokenType::NUMBER });
    assert_eq!(refused(";"), ParseError::InvalidStatement { found: TokenType::SEMICOLON });
    assert_eq!(refused("end"), ParseError::InvalidStatement { found: TokenType::END });
    assert_eq!(refused("else print 1; end"), ParseError::InvalidStatement { found: TokenType::ELSE });
    assert_eq!(refused("@"), ParseError::InvalidStatement { found: TokenType::ILLEGAL });
    assert_eq!(refused("then"), ParseError::InvalidStatement { found: TokenType::THEN });
}

#[test]
fn all_six_comparators() {
    assert_eq!(tree("if a == b then end"), "{if a == b {}}");
    assert_eq!(tree("if a != b then end"), "{if a != b {}}");
    assert_eq!(tree("if a > b then end"), "{if a > b {}}");
    assert_eq!(tree("if a >= b then end"), "{if a >= b {}}");
    assert_eq!(tree("if a < b then end"), "{if a < b {}}");
    assert_eq!(tree("if a << b then end"), "{if a <= b {}}");
}

// A documented choice, see the tokenizer: `<=` is `<` and then `=`.
#[test]
fn less_sign_and_equals_sign_are_no_comparator() {
    assert_eq!(
        refused("if a <= b then end"),
        ParseError::ExpectedPrimary { found: TokenType::EQ }
    );
}

#[test]
fn a_condition_has_expressions_on_both_sides() {
    assert_eq!(
        tree("if a + 1 > b * 2 then end"),
        "{if (a + 1) > (b * 2) {}}"
    );
    assert_eq!(tree("if \"a\" == \"b\" then end"), "{if \"a\" == \"b\" {}}");
}

#[test]
fn a_condition_needs_a_comparator() {
    assert_eq!(
        refused("if a then end"),
        ParseError::ExpectedComparator { found: TokenType::THEN }
    );
    assert_eq!(
        refused("while 1 = 1 then end"),
        ParseError::ExpectedComparator { found: TokenType::EQ }
    );
}

#[test]
fn if_with_body() {
    assert_eq!(
        tree("if x == 1 then print 1; print 2; end print 3;"),
        "{if x == 1 {print 1; print 2;} print 3;}"
    );
}

#[test]
fn if_else() {
    assert_eq!(
        tree("if x == 5 then print \"five\"; else print \"other\"; end"),
        "{if x == 5 {print \"five\";} else {print \"other\";}}"
    );
}

#[test]
fn if_elseif_else_is_a_chain() {
    assert_eq!(
        tree("if a < 1 then print 1; elseif a < 2 then print 2; elseif a < 3 then else print 4; end"),
        "{if a < 1 {print 1;} elseif a < 2 {print 2;} elseif a < 3 {} else {print 4;}}"
    );
}

#[test]
fn the_chain_is_linked_clause_by_clause() {
    let tree = parse("if a < 1 then elseif a < 2 then else end").unwrap();
    assert_eq!(tree.block.get_length(), 1);
    match tree.block.get_statement(0) {
        Statement::If(IfStatement::If(_, _, Some(second))) => match &**second {
            IfStatement::ElseIf(_, _, Some(third)) => match &**third {
                IfStatement::Else(body) => assert_eq!(body.get_length(), 0),
                other => panic!("{:?}", other),
            },
            other => panic!("{:?}", other),
        },
        other => panic!("{:?}", other),
    }
}

#[test]
fn one_end_closes_the_whole_chain() {
    assert_eq!(
        refused("if a < 1 then else end end"),
        ParseError::InvalidStatement { found: TokenType::END }
    );
    assert_eq!(
        refused("if a < 1 then elseif a < 2 then"),
        ParseError::InvalidStatement { found: TokenType::EOF }
    );
}

#[test]
fn nothing_follows_an_else_clause() {
    assert_eq!(
        refused("if a < 1 then else print 1; elseif a < 2 then end"),
        ParseError::InvalidElse { found: TokenType::ELSEIF }
    );
    assert_eq!(
        refused("if a < 1 then else else end"),
        ParseError::InvalidElse { found: TokenType::ELSE }
    );
}

#[test]
fn nested_conditionals_each_have_their_end() {
    assert_eq!(
        tree("if a < 1 then if b < 1 then print 1; else print 2; end else print 3; end"),
        "{if a < 1 {if b < 1 {print 1;} else {print 2;}} else {print 3;}}"
    );
}

#[test]
fn then_is_required() {
    assert_eq!(
        refused("if a < 1 print 1; end"),
        ParseError::UnexpectedToken { expected: TokenType::THEN, found: TokenType::PRINT }
    );
    assert_eq!(
        refused("while a < 1 print 1; end"),
        ParseError::UnexpectedToken { expected: TokenType::THEN, found: TokenType::PRINT }
    );
}

#[test]
fn while_with_body() {
    assert_eq!(
        tree("let i = 0; while i < 3 then print i; i = i + 1; end"),
        "{let i = 0; while i < 3 {print i; i = (i + 1);}}"
    );
    assert_eq!(tree("while 1 == 1 then end"), "{while 1 == 1 {}}");
}

#[test]
fn a_loop_has_no_else() {
    assert_eq!(
        refused("while a < 1 then else end"),
        ParseError::InvalidStatement { found: TokenType::ELSE }
    );
}

#[test]
fn a_loop_needs_its_end() {
    assert_eq!(
        refused("while a < 1 then print 1;"),
        ParseError::InvalidStatement { found: TokenType::EOF }
    );
}

#[test]
fn loops_and_conditionals_nest() {
    assert_eq!(
        tree("while a < 1 then if b < 1 then while c < 1 then end end end"),
        "{while a < 1 {if b < 1 {while c < 1 {}}}}"
    );
}

#[test]
fn a_lexical_error_surfaces_when_the_token_is_read_ahead() {
    assert_eq!(refused("print \"abc"), ParseError::Lexical(LexError::UnclosedString));
    assert_eq!(refused("print 1; x = 2.;"), ParseError::Lexical(LexError::InvalidNumber));
    assert_eq!(refused("print 1 ! 2;"), ParseError::Lexical(LexError::InvalidToken));
}

#[test]
fn a_syntax_error_in_front_of_a_lexical_error_comes_first() {
    // the parser stops at `@`, while `;` is the lookahead; the broken
    // string behind it has not been read
    assert_eq!(
        refused("print @ ; \"abc"),
        ParseError::ExpectedPrimary { found: TokenType::ILLEGAL }
    );
    // here the broken string is the lookahead when the parser stands at `;`
    assert_eq!(refused("print 1 ; \"abc"), ParseError::Lexical(LexError::UnclosedString));
}

#[test]
fn the_window_is_filled_before_anything_is_parsed() {
    // the second token cannot be read, so not even the first is looked at
    assert_eq!(refused("@ \"abc"), ParseError::Lexical(LexError::UnclosedString));
}

#[test]
fn parse_leaves_the_parser_at_the_end() {
    let mut parser = Parser::new(Lexer::new("print 1;".chars().collect()));
    let first = parser.parse().unwrap();
    assert_eq!(first.block.get_length(), 1);
    // a second parse finds nothing left but fills the window again
    let second = parser.parse().unwrap();
    assert_eq!(second.block.get_length(), 0);
}

#[test]
fn trees_can_be_built_by_hand() {
    let sum = Expression::BinaryOp(Box::new(BinaryOp::new(
        Expression::Literal(Literal::Number(String::from("1"))),
        Operator::Plus,
        Expression::UnaryOp(Box::new(UnaryOp::new(
            Operator::Minus,
            Expression::Ident(Ident::new(String::from("x"))),
        ))),
    )));
    assert_eq!(expression(&sum), "(1 + (-x))");
    let test = Condition::new(
        Expression::Ident(Ident::new(String::from("x"))),
        Comparator::GreaterThanOrEqual,
        Expression::Literal(Literal::Number(String::from("0"))),
    );
    assert_eq!(condition(&test), "x >= 0");
    let mut body = Block::new(vec![Statement::Print(sum)]);
    assert_eq!(body.get_length(), 1);
    assert_eq!(body.get_statements().len(), 1);
    body.get_mut_statements().push(Statement::Print(Expression::Literal(Literal::String(
        String::from("done"),
    ))));
    assert_eq!(body.get_length(), 2);
    let tree = AbstractSyntaxTree::new(Block::new(vec![Statement::While(test, body)]));
    assert_eq!(block(&tree.block), "{while x >= 0 {print (1 + (-x)); print \"done\";}}");
}

#[test]
fn a_failed_parse_leaves_the_parser_as_it_was() {
    let mut parser = Parser::new(Lexer::new("print 1; print ;".chars().collect()));
    let first = parser.parse().unwrap_err();
    assert_eq!(first, ParseError::ExpectedPrimary { found: TokenType::SEMICOLON });
    // the same parse, from the same place, fails in the same way
    assert_eq!(parser.parse().unwrap_err(), first);
}
