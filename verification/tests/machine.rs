// The evaluator, transition by transition: what it asks for and what it
// makes of the answers.

use tiny_interpreter::interpreter::ast::AbstractSyntaxTree;
use tiny_interpreter::interpreter::ast::Comparator;
use tiny_interpreter::interpreter::ast::Operator;
use tiny_interpreter::interpreter::intr::Action;
use tiny_interpreter::interpreter::intr::Event;
use tiny_interpreter::interpreter::intr::Fault;
use tiny_interpreter::interpreter::intr::Interpreter;
use tiny_interpreter::interpreter::intr::Number;
use tiny_interpreter::interpreter::intr::Relation;
use tiny_interpreter::interpreter::lexer::Lexer;
use tiny_interpreter::interpreter::parser::Parser;
use tiny_interpreter::interpreter::store::Store;

fn parse(source: &str) -> AbstractSyntaxTree {
    Parser::new(Lexer::new(source.chars().collect())).parse().expect("a program")
}

// In these tests a number is a small whole number, and its "bits" are the
// number itself; the machine never looks inside.
fn read(text: &str) -> Option<Number> {
    text.parse::<u32>().ok().map(|bits| Number { bits })
}

fn relation(left: Number, right: Number) -> Relation {
    if left.bits < right.bits {
        Relation::Less
    } else if left.bits == right.bits {
        Relation::Equal
    } else {
        Relation::Greater
    }
}

// Drives the machine and writes down every action that is not `Continue`,
// up to `limit` of them.
fn trace(source: &str, limit: usize) -> Vec<String> {
    let tree = parse(source);
    let mut machine = Interpreter::new(&tree);
    let mut seen = Vec::new();
    let mut event = Event::Resume;
    while seen.len() < limit {
        let action = machine.interpret(event);
        event = match &action {
            Action::Parse(text) => Event::Parsed(read(text)),
            Action::Compute(operator, left, right) => Event::Computed(match operator {
                Operator::Plus => (left.bits + right.bits).to_string(),
                Operator::Minus => (left.bits - right.bits).to_string(),
                Operator::Times => (left.bits * right.bits).to_string(),
                Operator::Divides => (left.bits / right.bits).to_string(),
            }),
            Action::Compare(left, right) => Event::Compared(relation(*left, *right)),
            _ => Event::Resume,
        };
        match action {
            Action::Continue => {}
            Action::Print(text) => seen.push(format!("print {}", text)),
            Action::Parse(text) => seen.push(format!("parse {}", text)),
            Action::Compute(operator, left, right) => {
                seen.push(format!("compute {} {:?} {}", left.bits, operator, right.bits))
            }
            Action::Compare(left, right) => {
                seen.push(format!("compare {} {}", left.bits, right.bits))
            }
            Action::Finish => {
                seen.push(String::from("finish"));
                break;
            }
            Action::Abort(fault) => {
                seen.push(format!("abort {:?}", fault));
                break;
            }
        }
    }
    seen
}

#[test]
fn an_empty_program_finishes() {
    assert_eq!(trace("", 10), vec!["finish"]);
}

#[test]
fn a_literal_is_printed_as_written() {
    assert_eq!(trace("print 007.50;", 10), vec!["print 007.50", "finish"]);
    assert_eq!(trace("print \"a  b\";", 10), vec!["print a  b", "finish"]);
}

#[test]
fn a_binary_operation_reads_left_then_right_then_computes() {
    assert_eq!(
        trace("print 1 + 2;", 10),
        vec!["parse 1", "parse 2", "compute 1 Plus 2", "print 3", "finish"]
    );
}

#[test]
fn operands_are_evaluated_inner_first() {
    assert_eq!(
        trace("print 2 + 3 * 4;", 20),
        vec![
            "parse 2",
            "parse 3",
            "parse 4",
            "compute 3 Times 4",
            "parse 12",
            "compute 2 Plus 12",
            "print 14",
            "finish"
        ]
    );
    assert_eq!(
        trace("print 8 - 3 - 2;", 20),
        vec![
            "parse 8",
            "parse 3",
            "compute 8 Minus 3",
            "parse 5",
            "parse 2",
            "compute 5 Minus 2",
            "print 3",
            "finish"
        ]
    );
}

#[test]
fn every_operator_is_handed_out_as_itself() {
    assert_eq!(trace("print 6 / 3;", 10)[2], "compute 6 Divides 3");
    assert_eq!(trace("print 6 * 3;", 10)[2], "compute 6 Times 3");
    assert_eq!(trace("print 6 - 3;", 10)[2], "compute 6 Minus 3");
    assert_eq!(trace("print 6 + 3;", 10)[2], "compute 6 Plus 3");
}

#[test]
fn a_sign_is_not_applied() {
    assert_eq!(trace("print -5;", 10), vec!["parse 5", "print 5", "finish"]);
    assert_eq!(trace("print +5;", 10), vec!["parse 5", "print 5", "finish"]);
    assert_eq!(trace("print -007;", 10), vec!["parse 007", "print 007", "finish"]);
}

#[test]
fn the_operand_of_a_sign_must_be_a_number() {
    assert_eq!(
        trace("let x = \"abc\"; print -x;", 10),
        vec!["parse abc", "abort NotNumeric(\"abc\")"]
    );
}

#[test]
fn a_variable_holds_the_text_it_was_given() {
    assert_eq!(trace("let x = 01; print x;", 10), vec!["print 01", "finish"]);
    assert_eq!(trace("let x = \"hi\"; let y = x; print y;", 10), vec!["print hi", "finish"]);
    assert_eq!(
        trace("let x = 1; x = x + 1; print x;", 10),
        vec!["parse 1", "parse 1", "compute 1 Plus 1", "print 2", "finish"]
    );
}

#[test]
fn a_variable_without_a_value_ends_the_run() {
    assert_eq!(trace("print y;", 10), vec!["abort UnassignedVariable(\"y\")"]);
    // declared further down, but without a value when it is read
    assert_eq!(trace("print x; let x = 1;", 10), vec!["abort UnassignedVariable(\"x\")"]);
    // declared in a branch that is not taken
    assert_eq!(
        trace("if 1 == 2 then let x = 1; end print x;", 10),
        vec!["parse 1", "parse 2", "compare 1 2", "abort UnassignedVariable(\"x\")"]
    );
}

#[test]
fn the_left_operand_is_read_before_the_right_is_evaluated() {
    assert_eq!(
        trace("let x = \"abc\"; print x + y;", 10),
        vec!["parse abc", "abort NotNumeric(\"abc\")"]
    );
    assert_eq!(
        trace("let x = 1; print x + y;", 10),
        vec!["parse 1", "abort UnassignedVariable(\"y\")"]
    );
}

#[test]
fn a_text_that_is_no_number_ends_the_run_and_is_named() {
    assert_eq!(
        trace("let x = \"one\"; print 1 + x;", 10),
        vec!["parse 1", "parse one", "abort NotNumeric(\"one\")"]
    );
    assert_eq!(
        trace("let x = \"one\"; if x == 1 then end", 10),
        vec!["parse one", "abort NotNumeric(\"one\")"]
    );
    assert_eq!(
        trace("if 1 == \"\" then end", 10),
        vec!["parse 1", "parse ", "abort NotNumeric(\"\")"]
    );
}

#[test]
fn output_in_front_of_a_fault_has_been_asked_for() {
    assert_eq!(
        trace("print 1; print y; print 2;", 10),
        vec!["print 1", "abort UnassignedVariable(\"y\")"]
    );
}

#[test]
fn the_declaration_check_comes_before_any_statement() {
    assert_eq!(
        trace("print 1; y = 2;", 10),
        vec!["abort UndeclaredAssignment(\"y\")"]
    );
}

#[test]
fn a_condition_compares_left_with_right() {
    assert_eq!(
        trace("if 1 + 1 > 3 then print 1; end", 10),
        vec!["parse 1", "parse 1", "compute 1 Plus 1", "parse 2", "parse 3", "compare 2 3", "finish"]
    );
}

#[test]
fn the_first_clause_that_holds_is_taken() {
    let program = |x: &str| {
        format!(
            "let x = {}; if x == 1 then print \"one\"; elseif x == 2 then print \"two\"; \
             elseif x == 3 then print \"three\"; else print \"many\"; end print \"done\";",
            x
        )
    };
    let prints = |x: &str| -> Vec<String> {
        trace(&program(x), 100).into_iter().filter(|line| line.starts_with("print")).collect()
    };
    assert_eq!(prints("1"), vec!["print one", "print done"]);
    assert_eq!(prints("2"), vec!["print two", "print done"]);
    assert_eq!(prints("3"), vec!["print three", "print done"]);
    assert_eq!(prints("4"), vec!["print many", "print done"]);
}

#[test]
fn later_conditions_are_not_evaluated_once_a_clause_is_taken() {
    assert_eq!(
        trace("if 1 == 1 then print 1; elseif y == 2 then print 2; end", 10),
        vec!["parse 1", "parse 1", "compare 1 1", "print 1", "finish"]
    );
}

#[test]
fn without_a_clause_that_holds_nothing_runs() {
    assert_eq!(
        trace("if 1 == 2 then print 1; elseif 1 == 3 then print 2; end print 3;", 20),
        vec!["parse 1", "parse 2", "compare 1 2", "parse 1", "parse 3", "compare 1 3", "print 3", "finish"]
    );
}

#[test]
fn a_loop_tests_its_condition_before_every_round() {
    assert_eq!(
        trace("let i = 0; while i < 2 then i = i + 1; end print i;", 50),
        vec![
            "parse 0",
            "parse 2",
            "compare 0 2",
            "parse 0",
            "parse 1",
            "compute 0 Plus 1",
            "parse 1",
            "parse 2",
            "compare 1 2",
            "parse 1",
            "parse 1",
            "compute 1 Plus 1",
            "parse 2",
            "parse 2",
            "compare 2 2",
            "print 2",
            "finish"
        ]
    );
}

#[test]
fn a_loop_that_never_ends_keeps_asking() {
    let seen = trace("while 1 == 1 then print 1; end", 40);
    assert_eq!(seen.len(), 40);
    assert_eq!(&seen[0..4], &["parse 1", "parse 1", "compare 1 1", "print 1"]);
    assert_eq!(&seen[36..40], &["parse 1", "parse 1", "compare 1 1", "print 1"]);
}

#[test]
fn a_finished_machine_stays_finished() {
    let tree = parse("");
    let mut machine = Interpreter::new(&tree);
    loop {
        if let Action::Finish = machine.interpret(Event::Resume) {
            break;
        }
    }
    assert!(matches!(machine.interpret(Event::Resume), Action::Finish));
    assert!(matches!(machine.interpret(Event::Compared(Relation::Less)), Action::Finish));
    assert!(matches!(machine.interpret(Event::Parsed(None)), Action::Finish));
}

#[test]
fn an_aborted_machine_does_nothing_more() {
    let tree = parse("print y; print 1;");
    let mut machine = Interpreter::new(&tree);
    loop {
        if let Action::Abort(_) = machine.interpret(Event::Resume) {
            break;
        }
    }
    assert!(matches!(machine.interpret(Event::Resume), Action::Finish));
}

#[test]
fn an_answer_to_nothing_ends_the_run() {
    let tree = parse("print 1;");
    let mut machine = Interpreter::new(&tree);
    assert!(matches!(
        machine.interpret(Event::Computed(String::from("1"))),
        Action::Abort(Fault::UnexpectedEvent)
    ));

    let tree = parse("print 1 + 2;");
    let mut machine = Interpreter::new(&tree);
    loop {
        if let Action::Parse(_) = machine.interpret(Event::Resume) {
            break;
        }
    }
    assert!(matches!(machine.interpret(Event::Resume), Action::Abort(Fault::UnexpectedEvent)));
}

#[test]
fn the_first_transitions_of_a_run() {
    let tree = parse("print 1;");
    let mut machine = Interpreter::new(&tree);
    // the declaration check
    assert!(matches!(machine.interpret(Event::Resume), Action::Continue));
    // the statement is taken up
    assert!(matches!(machine.interpret(Event::Resume), Action::Continue));
    // the literal becomes a text
    assert!(matches!(machine.interpret(Event::Resume), Action::Continue));
    // the text is handed to `print`
    match machine.interpret(Event::Resume) {
        Action::Print(text) => assert_eq!(text, "1"),
        other => panic!("{:?}", other),
    }
    // the block is at its end
    assert!(matches!(machine.interpret(Event::Resume), Action::Continue));
    assert!(matches!(machine.interpret(Event::Resume), Action::Finish));
}

#[test]
fn each_comparator_against_each_relation() {
    let table = [
        (Comparator::Equal, [false, true, false, false]),
        (Comparator::NotEqual, [true, false, true, true]),
        (Comparator::LessThan, [true, false, false, false]),
        (Comparator::LessThanOrEqual, [true, true, false, false]),
        (Comparator::GreaterThan, [false, false, true, false]),
        (Comparator::GreaterThanOrEqual, [false, true, true, false]),
    ];
    let relations = [Relation::Less, Relation::Equal, Relation::Greater, Relation::Unordered];
    for (comparator, expected) in table {
        for (relation, holds) in relations.iter().zip(expected) {
            assert_eq!(comparator.holds(*relation), holds, "{:?} {:?}", comparator, relation);
        }
    }
}

#[test]
fn a_new_store_is_empty() {
    let store = Store::new();
    assert!(store.get("x").is_none());
}

#[test]
fn the_store_keeps_the_last_value() {
    let mut store = Store::new();
    store.set(String::from("x"), String::from("1"));
    store.set(String::from("y"), String::from("2"));
    store.set(String::from("x"), String::from("3"));
    assert_eq!(store.get("x").map(|value| value.as_str()), Some("3"));
    assert_eq!(store.get("y").map(|value| value.as_str()), Some("2"));
    assert!(store.get("z").is_none());
    assert!(store.get("X").is_none());
}
