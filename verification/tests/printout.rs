// The readable printout of a syntax tree.

use tiny_interpreter::interpreter::ast::AbstractSyntaxTree;
use tiny_interpreter::interpreter::ast::Comparator;
use tiny_interpreter::interpreter::ast::Expression;
use tiny_interpreter::interpreter::ast::Ident;
use tiny_interpreter::interpreter::ast::IfStatement;
use tiny_interpreter::interpreter::ast::Block;
use tiny_interpreter::interpreter::ast::Literal;
use tiny_interpreter::interpreter::ast::Operator;
use tiny_interpreter::interpreter::ast::Statement;
use tiny_interpreter::interpreter::lexer::Lexer;
use tiny_interpreter::interpreter::parser::Parser;

fn parse(source: &str) -> AbstractSyntaxTree {
    Parser::new(Lexer::new(source.chars().collect())).parse().expect("a program")
}

fn lines(text: &str) -> Vec<&str> {
    text.split('\n').collect()
}

#[test]
fn an_empty_program_is_a_bare_block() {
    assert_eq!(parse("").output(), "block");
}

#[test]
fn a_declaration_shows_its_name_and_its_value() {
    assert_eq!(
        lines(&parse("let x = 1 + 2; print x;").output()),
        vec![
            "block",
            "  let",
            "    x",
            "    +",
            "      1",
            "      2",
            "  print",
            "    x",
        ]
    );
}

#[test]
fn operations_nest_by_precedence() {
    assert_eq!(
        lines(&parse("print 2 + 3 * 4;").output()),
        vec![
            "block",
            "  print",
            "    +",
            "      2",
            "      *",
            "        3",
            "        4",
        ]
    );
}

#[test]
fn a_conditional_shows_condition_body_and_further_clauses() {
    assert_eq!(
        lines(&parse("if x == 5 then print \"five\"; else print \"other\"; end").output()),
        vec![
            "block",
            "  if",
            "    ==",
            "      x",
            "      5",
            "    block",
            "      print",
            "        five",
            "    else",
            "      block",
            "        print",
            "          other",
        ]
    );
}

#[test]
fn every_further_clause_goes_one_level_in() {
    assert_eq!(
        lines(&parse("if a < 1 then elseif a > 2 then else end").output()),
        vec![
            "block",
            "  if",
            "    <",
            "      a",
            "      1",
            "    block",
            "    elseif",
            "      >",
            "        a",
            "        2",
            "      block",
            "      else",
            "        block",
        ]
    );
}

#[test]
fn a_loop_shows_condition_and_body() {
    assert_eq!(
        lines(&parse("while i != 3 then print i; end").output()),
        vec![
            "block",
            "  while",
            "    !=",
            "      i",
            "      3",
            "    block",
            "      print",
            "        i",
        ]
    );
}

#[test]
fn an_assignment_is_an_empty_line_at_its_depth() {
    assert_eq!(
        lines(&parse("let x = 1; x = 2; print x;").output()),
        vec!["block", "  let", "    x", "    1", "  ", "  print", "    x"]
    );
}

#[test]
fn a_sign_is_not_shown() {
    assert_eq!(
        lines(&parse("print -x * +2;").output()),
        vec!["block", "  print", "    *", "      x", "      2"]
    );
}

#[test]
fn every_operator_and_comparator_has_its_sign() {
    assert_eq!(Operator::Plus.output(""), "+");
    assert_eq!(Operator::Minus.output(" "), " -");
    assert_eq!(Operator::Times.output(""), "*");
    assert_eq!(Operator::Divides.output(""), "/");
    assert_eq!(Comparator::Equal.output(""), "==");
    assert_eq!(Comparator::NotEqual.output(""), "!=");
    assert_eq!(Comparator::GreaterThan.output(""), ">");
    assert_eq!(Comparator::GreaterThanOrEqual.output("  "), "  >=");
    assert_eq!(Comparator::LessThan.output(""), "<");
    assert_eq!(Comparator::LessThanOrEqual.output(""), "<=");
}

#[test]
fn parts_can_be_printed_at_any_depth() {
    let name = Expression::Ident(Ident::new(String::from("total")));
    assert_eq!(name.output("      "), "      total");
    assert_eq!(Literal::String(String::from("a b")).output("  "), "  a b");
    assert_eq!(Literal::Number(String::from("1.5")).output(""), "1.5");
    let clause = IfStatement::Else(Block::new(vec![Statement::Print(name)]));
    assert_eq!(
        lines(&clause.output("  ")),
        vec!["  else", "    block", "      print", "        total"]
    );
}
