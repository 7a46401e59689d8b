// Whole programs, run from source text to printed lines. The machine asks
// for output and arithmetic; the driver below supplies them, with
// single-precision numbers.

use std::cmp::Ordering;
use tiny_interpreter::interpreter::ast::Operator;
use tiny_interpreter::interpreter::intr::Action;
use tiny_interpreter::interpreter::intr::Event;
use tiny_interpreter::interpreter::intr::Fault;
use tiny_interpreter::interpreter::intr::Interpreter;
use tiny_interpreter::interpreter::intr::Number;
use tiny_interpreter::interpreter::intr::Relation;
use tiny_interpreter::interpreter::lexer::LexError;
use tiny_interpreter::interpreter::lexer::Lexer;
use tiny_interpreter::interpreter::parser::ParseError;
use tiny_interpreter::interpreter::parser::Parser;

#[derive(Debug)]
enum Failure {
    Syntax(ParseError),
    Runtime(Fault),
}

struct Outcome {
    lines: Vec<String>,
    failure: Option<Failure>,
}

fn answer(action: &Action) -> Event {
    match action {
        Action::Parse(text) => {
            Event::Parsed(text.parse::<f32>().ok().map(|value| Number { bits: value.to_bits() }))
        }
        Action::Compute(operator, left, right) => {
            let a = f32::from_bits(left.bits);
            let b = f32::from_bits(right.bits);
            let value = match operator {
                Operator::Plus => a + b,
                Operator::Minus => a - b,
                Operator::Times => a * b,
                Operator::Divides => a / b,
            };
            Event::Computed(value.to_string())
        }
        Action::Compare(left, right) => {
            let a = f32::from_bits(left.bits);
            let b = f32::from_bits(right.bits);
            Event::Compared(match a.partial_cmp(&b) {
                Some(Ordering::Less) => Relation::Less,
                Some(Ordering::Equal) => Relation::Equal,
                Some(Ordering::Greater) => Relation::Greater,
                None => Relation::Unordered,
            })
        }
        _ => Event::Resume,
    }
}

fn run(source: &str) -> Outcome {
    let mut lines = Vec::new();
    let lexer = Lexer::new(source.chars().collect());
    let mut parser = Parser::new(lexer);
    let tree = match parser.parse() {
        Ok(tree) => tree,
        Err(error) => return Outcome { lines, failure: Some(Failure::Syntax(error)) },
    };
    let mut machine = Interpreter::new(&tree);
    let mut event = Event::Resume;
    loop {
        let action = machine.interpret(event);
        event = answer(&action);
        match action {
            Action::Print(text) => lines.push(text),
            Action::Finish => return Outcome { lines, failure: None },
            Action::Abort(fault) => {
                return Outcome { lines, failure: Some(Failure::Runtime(fault)) }
            }
            _ => {}
        }
    }
}

fn printed(source: &str) -> Vec<String> {
    let outcome = run(source);
    assert!(outcome.failure.is_none(), "{:?}", outcome.failure);
    outcome.lines
}

#[test]
fn multiplication_binds_tighter_than_addition() {
    assert_eq!(printed("print 2 + 3 * 4;"), vec!["14"]);
}

#[test]
fn subtraction_associates_to_the_left() {
    assert_eq!(printed("print 8 - 3 - 2;"), vec!["3"]);
}

#[test]
fn declared_then_assigned_runs() {
    assert_eq!(printed("let x = 1; x = 2; print x;"), vec!["2"]);
}

#[test]
fn assignment_without_declaration_is_refused_before_anything_runs() {
    let outcome = run("print 1; y = 2;");
    assert!(outcome.lines.is_empty());
    match outcome.failure {
        Some(Failure::Runtime(Fault::UndeclaredAssignment(name))) => assert_eq!(name, "y"),
        other => panic!("{:?}", other),
    }
}

#[test]
fn if_else_takes_the_true_branch() {
    assert_eq!(
        printed("let x = 5; if x == 5 then print \"five\"; else print \"other\"; end"),
        vec!["five"]
    );
}

#[test]
fn while_counts_up() {
    assert_eq!(
        printed("let i = 0; while i < 3 then print i; i = i + 1; end"),
        vec!["0", "1", "2"]
    );
}

#[test]
fn unterminated_string_fails_before_any_statement_runs() {
    let outcome = run("print \"abc");
    assert!(outcome.lines.is_empty());
    match outcome.failure {
        Some(Failure::Syntax(ParseError::Lexical(LexError::UnclosedString))) => {}
        other => panic!("{:?}", other),
    }
}

fn failed(source: &str) -> (Vec<String>, Failure) {
    let outcome = run(source);
    match outcome.failure {
        Some(failure) => (outcome.lines, failure),
        None => panic!("ran to its end and printed {:?}", outcome.lines),
    }
}

#[test]
fn arithmetic_is_single_precision() {
    assert_eq!(printed("print 1 / 3;"), vec!["0.33333334"]);
    assert_eq!(printed("print 0.1 + 0.2;"), vec!["0.3"]);
    assert_eq!(printed("print 16777216 + 1;"), vec!["16777216"]);
    assert_eq!(printed("print 7 / 2;"), vec!["3.5"]);
    assert_eq!(printed("print 2.50 * 2;"), vec!["5"]);
}

#[test]
fn division_by_zero_is_no_fault() {
    assert_eq!(printed("print 1 / 0;"), vec!["inf"]);
    assert_eq!(printed("print 0 - 1 / 0;"), vec!["-inf"]);
    assert_eq!(printed("print 0 / 0;"), vec!["NaN"]);
}

#[test]
fn a_result_can_be_an_operand_again() {
    assert_eq!(printed("let x = 1 / 0; print x - 1;"), vec!["inf"]);
    assert_eq!(printed("let x = 0 / 0; print x + 1;"), vec!["NaN"]);
    assert_eq!(printed("let x = 1 / 4; let y = x * 8; print y;"), vec!["2"]);
}

#[test]
fn a_string_that_looks_like_a_number_is_a_number() {
    assert_eq!(printed("let x = \"2\"; print x * 3;"), vec!["6"]);
    assert_eq!(printed("let x = \"1e2\"; print x + 1;"), vec!["101"]);
    assert_eq!(printed("let x = \"-4\"; print x + 1;"), vec!["-3"]);
}

#[test]
fn a_string_that_is_no_number_is_no_operand() {
    let (lines, failure) = failed("print 1; let x = \"two\"; print x * 3;");
    assert_eq!(lines, vec!["1"]);
    match failure {
        Failure::Runtime(Fault::NotNumeric(text)) => assert_eq!(text, "two"),
        other => panic!("{:?}", other),
    }
    let (_, failure) = failed("let x = \" 2\"; print x * 3;");
    assert!(matches!(failure, Failure::Runtime(Fault::NotNumeric(_))));
}

#[test]
fn literals_print_as_written() {
    assert_eq!(printed("print 1.50;"), vec!["1.50"]);
    assert_eq!(printed("print 007;"), vec!["007"]);
    assert_eq!(printed("print \"\";"), vec![""]);
}

#[test]
fn unary_minus_has_no_effect() {
    assert_eq!(printed("print -5;"), vec!["5"]);
    assert_eq!(printed("print 3 + -5;"), vec!["8"]);
    assert_eq!(printed("let x = 2; print -x * 3;"), vec!["6"]);
}

#[test]
fn each_comparator_on_numbers() {
    let holds = |condition: &str| -> bool {
        let lines = printed(&format!(
            "if {} then print \"yes\"; else print \"no\"; end",
            condition
        ));
        lines == vec!["yes"]
    };
    assert!(holds("1 == 1"));
    assert!(!holds("1 == 2"));
    assert!(holds("1.0 == 1"));
    assert!(!holds("1 != 1"));
    assert!(holds("1 != 2"));
    assert!(holds("2 > 1"));
    assert!(!holds("1 > 1"));
    assert!(!holds("1 > 2"));
    assert!(holds("2 >= 1"));
    assert!(holds("1 >= 1"));
    assert!(!holds("1 >= 2"));
    assert!(holds("1 < 2"));
    assert!(!holds("1 < 1"));
    assert!(!holds("2 < 1"));
    assert!(holds("1 << 2"));
    assert!(holds("1 << 1"));
    assert!(!holds("2 << 1"));
    assert!(holds("0.5 < 0.75"));
    assert!(holds("10 > 9"));
}

#[test]
fn what_is_not_a_number_compares_unequal_to_everything() {
    let program = "let x = 0 / 0; if x == x then print \"equal\"; end \
                   if x != x then print \"unequal\"; end \
                   if x < 1 then print \"less\"; end \
                   if x >= 1 then print \"not less\"; end";
    assert_eq!(printed(program), vec!["unequal"]);
}

#[test]
fn strings_cannot_be_compared() {
    let (_, failure) = failed("if \"a\" == \"a\" then print 1; end");
    match failure {
        Failure::Runtime(Fault::NotNumeric(text)) => assert_eq!(text, "a"),
        other => panic!("{:?}", other),
    }
}

#[test]
fn elseif_chain() {
    let program = |x: u32| {
        format!(
            "let x = {}; if x < 10 then print \"small\"; elseif x < 100 then print \"medium\"; \
             else print \"large\"; end",
            x
        )
    };
    assert_eq!(printed(&program(5)), vec!["small"]);
    assert_eq!(printed(&program(50)), vec!["medium"]);
    assert_eq!(printed(&program(500)), vec!["large"]);
}

#[test]
fn a_conditional_without_else_may_run_nothing() {
    assert_eq!(printed("if 1 > 2 then print 1; end print 2;"), vec!["2"]);
}

#[test]
fn nested_loops() {
    let program = "let i = 0; while i < 2 then let j = 0; while j < 2 then \
                   print i * 10 + j; j = j + 1; end i = i + 1; end";
    assert_eq!(printed(program), vec!["0", "1", "10", "11"]);
}

#[test]
fn a_loop_whose_condition_fails_at_once_runs_nothing() {
    assert_eq!(printed("while 1 > 2 then print 1; end print 2;"), vec!["2"]);
}

#[test]
fn there_is_one_flat_namespace() {
    // declared inside a loop body, still there behind the loop
    assert_eq!(
        printed("let i = 0; while i < 1 then let seen = \"yes\"; i = i + 1; end print seen;"),
        vec!["yes"]
    );
    // declared inside a branch, assigned behind it
    assert_eq!(
        printed("if 1 == 1 then let x = 1; end x = 2; print x;"),
        vec!["2"]
    );
    // a second declaration replaces the value
    assert_eq!(printed("let x = 1; let x = 2; print x;"), vec!["2"]);
}

#[test]
fn a_variable_is_declared_everywhere_once_it_is_declared_anywhere() {
    // the declaration stands in a branch that is never taken; the
    // assignment behind it passes the check and gives the variable a value
    assert_eq!(printed("if 1 == 2 then let x = 1; end x = 5; print x;"), vec!["5"]);
}

#[test]
fn a_variable_read_before_it_has_a_value_ends_the_run() {
    let (lines, failure) = failed("print 1; print x; let x = 2;");
    assert_eq!(lines, vec!["1"]);
    match failure {
        Failure::Runtime(Fault::UnassignedVariable(name)) => assert_eq!(name, "x"),
        other => panic!("{:?}", other),
    }
}

#[test]
fn a_syntax_error_anywhere_means_nothing_runs() {
    let (lines, failure) = failed("print 1; print 2");
    assert!(lines.is_empty());
    assert!(matches!(failure, Failure::Syntax(ParseError::UnexpectedToken { .. })));
}

#[test]
fn keywords_in_any_case() {
    assert_eq!(
        printed("LET x = 3; WHILE x > 0 THEN Print x; x = x - 1; END"),
        vec!["3", "2", "1"]
    );
}

#[test]
fn larger_program() {
    let program = "
        let a = 0;
        let b = 1;
        let n = 0;
        while n < 10 then
            print a;
            let next = a + b;
            a = b;
            b = next;
            n = n + 1;
        end
    ";
    assert_eq!(
        printed(program),
        vec!["0", "1", "1", "2", "3", "5", "8", "13", "21", "34"]
    );
}
