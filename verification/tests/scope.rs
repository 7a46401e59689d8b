// The table of declared names and the declaration check.

use tiny_interpreter::interpreter::ast::AbstractSyntaxTree;
use tiny_interpreter::interpreter::lexer::Lexer;
use tiny_interpreter::interpreter::parser::Parser;
use tiny_interpreter::interpreter::symbol::ResolveError;
use tiny_interpreter::interpreter::symbol::Symbol;
use tiny_interpreter::interpreter::symbol::SymbolTable;

fn parse(source: &str) -> AbstractSyntaxTree {
    Parser::new(Lexer::new(source.chars().collect())).parse().expect("a program")
}

// The names in a table, in alphabetical order.
fn names(table: &SymbolTable) -> Vec<String> {
    let mut names = table.output();
    names.sort();
    names
}

// The names in the table after the check, or the name it stopped at.
fn check(source: &str) -> Result<Vec<String>, String> {
    let tree = parse(source);
    let mut table = SymbolTable::new();
    match table.process_abstract_syntax_tree(&tree) {
        Ok(()) => Ok(names(&table)),
        Err(ResolveError::UndeclaredAssignment(name)) => Err(name),
    }
}

#[test]
fn a_new_table_is_empty() {
    let table = SymbolTable::new();
    assert!(table.lookup("x").is_none());
    assert!(table.output().is_empty());
}

#[test]
fn define_then_lookup() {
    let mut table = SymbolTable::new();
    table.define_symbol(Symbol::new(String::from("x")));
    assert_eq!(table.lookup("x").map(|symbol| symbol.name.as_str()), Some("x"));
    assert!(table.lookup("y").is_none());
    assert!(table.lookup("X").is_none());
    assert!(table.lookup("").is_none());
}

#[test]
fn a_name_is_entered_once() {
    let mut table = SymbolTable::new();
    table.define_symbol(Symbol::new(String::from("x")));
    table.define_symbol(Symbol::new(String::from("y")));
    table.define_symbol(Symbol::new(String::from("x")));
    assert_eq!(names(&table), vec!["x", "y"]);
}

#[test]
fn symbols_compare_by_name() {
    assert!(Symbol::new(String::from("x")) == Symbol::new(String::from("x")));
    assert!(Symbol::new(String::from("x")) != Symbol::new(String::from("y")));
}

#[test]
fn declared_then_assigned_passes() {
    assert_eq!(check("let x = 1; x = 2;"), Ok(vec![String::from("x")]));
}

#[test]
fn assignment_without_declaration_fails() {
    assert_eq!(check("y = 2;"), Err(String::from("y")));
}

#[test]
fn assignment_in_front_of_its_declaration_fails() {
    assert_eq!(check("x = 1; let x = 2;"), Err(String::from("x")));
}

#[test]
fn the_first_undeclared_assignment_is_reported() {
    assert_eq!(check("let a = 1; b = 1; c = 1;"), Err(String::from("b")));
}

#[test]
fn names_are_case_sensitive() {
    assert_eq!(check("let x = 1; X = 2;"), Err(String::from("X")));
}

#[test]
fn uses_inside_expressions_are_not_checked() {
    assert_eq!(check("print y; let x = z + 1;"), Ok(vec![String::from("x")]));
    assert_eq!(check("if a == b then end while c < d then end"), Ok(vec![]));
}

#[test]
fn a_declaration_inside_a_body_is_seen_behind_it() {
    assert_eq!(
        check("if 1 == 2 then let x = 1; end x = 2;"),
        Ok(vec![String::from("x")])
    );
    assert_eq!(
        check("while 1 == 2 then let x = 1; end x = 2;"),
        Ok(vec![String::from("x")])
    );
}

#[test]
fn every_clause_of_a_conditional_is_visited() {
    assert_eq!(
        check("if 1 == 2 then let a = 1; elseif 1 == 3 then let b = 1; else let c = 1; end a = 0; b = 0; c = 0;"),
        Ok(vec![String::from("a"), String::from("b"), String::from("c")])
    );
    assert_eq!(check("if 1 == 2 then else x = 1; end"), Err(String::from("x")));
    assert_eq!(
        check("if 1 == 2 then elseif 1 == 3 then x = 1; end"),
        Err(String::from("x"))
    );
}

#[test]
fn clauses_are_visited_in_source_order() {
    assert_eq!(
        check("if 1 == 2 then x = 1; else let x = 1; end"),
        Err(String::from("x"))
    );
    assert_eq!(
        check("if 1 == 2 then let x = 1; else x = 1; end"),
        Ok(vec![String::from("x")])
    );
}

#[test]
fn nested_bodies_are_visited() {
    assert_eq!(
        check("while 1 == 1 then if 1 == 1 then while 1 == 1 then y = 1; end end end"),
        Err(String::from("y"))
    );
    assert_eq!(
        check("while 1 == 1 then if 1 == 1 then let y = 0; while 1 == 1 then y = 1; end end end"),
        Ok(vec![String::from("y")])
    );
}

#[test]
fn the_table_keeps_what_was_declared_in_front_of_a_fault() {
    let tree = parse("let a = 1; let b = 2; c = 3; let d = 4;");
    let mut table = SymbolTable::new();
    assert!(table.process_abstract_syntax_tree(&tree).is_err());
    assert_eq!(names(&table), vec!["a", "b"]);
}

#[test]
fn the_check_adds_to_the_names_already_known() {
    let tree = parse("x = 1; let y = 2;");
    let mut table = SymbolTable::new();
    table.define_symbol(Symbol::new(String::from("x")));
    assert!(table.process_abstract_syntax_tree(&tree).is_ok());
    assert_eq!(names(&table), vec!["x", "y"]);
}
