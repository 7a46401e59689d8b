//! The declaration check that runs before a program is executed.
//!
//! One pass over the tree, in source order, enters every declared name into
//! a flat table and stops at the first assignment to a name that is not yet
//! in it. Names used inside expressions are not looked at.

use vstd::prelude::*;
use crate::interpreter::ast::AbstractSyntaxTree;
use crate::interpreter::ast::Block;
use crate::interpreter::ast::IfStatement;
use crate::interpreter::ast::IfView;
use crate::interpreter::ast::Statement;
use crate::interpreter::ast::StatementView;
use crate::interpreter::text::same_text;

verus! {

/// What the pass has found: the names declared so far, and the name of the
/// first assignment whose target was not declared when it was met, if there
/// was one. The pass stops there.
pub struct Resolution {
    pub declared: Set<Seq<char>>,
    pub fault: Option<Seq<char>>,
}

/// The pass over one statement, begun with the names in `declared`.
pub open spec fn resolve_statement(statement: StatementView, declared: Set<Seq<char>>) -> Resolution
    decreases statement, 0nat,
{
    match statement {
        StatementView::Print(_) => Resolution { declared, fault: None },
        StatementView::Let(name, _) => Resolution { declared: declared.insert(name), fault: None },
        StatementView::Assignment(name, _) => if declared.contains(name) {
            Resolution { declared, fault: None }
        } else {
            Resolution { declared, fault: Some(name) }
        },
        StatementView::If(chain) => resolve_chain(chain, declared),
        StatementView::While(_, body) => resolve_block(body, 0, declared),
    }
}

/// The pass over a clause of a conditional and the clauses behind it: the
/// body of the clause first, then the rest.
pub open spec fn resolve_chain(chain: IfView, declared: Set<Seq<char>>) -> Resolution
    decreases chain, 0nat,
{
    match chain {
        IfView::If(_, body, other) => {
            let first = resolve_block(body, 0, declared);
            match other {
                Some(next) => if first.fault is None {
                    resolve_chain(*next, first.declared)
                } else {
                    first
                },
                None => first,
            }
        },
        IfView::ElseIf(_, body, other) => {
            let first = resolve_block(body, 0, declared);
            match other {
                Some(next) => if first.fault is None {
                    resolve_chain(*next, first.declared)
                } else {
                    first
                },
                None => first,
            }
        },
        IfView::Else(body) => resolve_block(body, 0, declared),
    }
}

/// The pass over the statements of a block from index `from` on.
pub open spec fn resolve_block(
    statements: Seq<StatementView>,
    from: int,
    declared: Set<Seq<char>>,
) -> Resolution
    decreases statements, statements.len() - from,
{
    if 0 <= from < statements.len() {
        let first = resolve_statement(statements[from], declared);
        if first.fault is None {
            resolve_block(statements, from + 1, first.declared)
        } else {
            first
        }
    } else {
        Resolution { declared, fault: None }
    }
}

/// The pass over a whole program, begun with the names in `declared`.
pub open spec fn resolve(program: Seq<StatementView>, declared: Set<Seq<char>>) -> Resolution {
    resolve_block(program, 0, declared)
}

/// Why a program is refused before it runs.
#[derive(Debug)]
pub enum ResolveError {
    /// An assignment to this name comes before any declaration of it.
    UndeclaredAssignment(String),
}

/// A declared name.
#[derive(Debug, Hash)]
pub struct Symbol {
    pub name: String,
}

impl View for Symbol {
    type V = Seq<char>;

    open spec fn view(&self) -> Seq<char> {
        self.name@
    }
}

impl Symbol {
    /// The entry for this name.
    pub fn new(name: String) -> (symbol: Symbol)
        ensures
            symbol.name == name,
    {
        Symbol { name: name }
    }
}

impl PartialEq for Symbol {
    fn eq(&self, other: &Symbol) -> (r: bool) {
        self.name == other.name
    }
}

impl vstd::std_specs::cmp::PartialEqSpecImpl for Symbol {
    open spec fn obeys_eq_spec() -> bool {
        true
    }

    open spec fn eq_spec(&self, other: &Symbol) -> bool {
        self@ == other@
    }
}

impl Eq for Symbol {

}

/// The flat table of declared names.
pub struct SymbolTable {
    symbols: Vec<Symbol>,
}

impl View for SymbolTable {
    type V = Set<Seq<char>>;

    closed spec fn view(&self) -> Set<Seq<char>> {
        Set::new(|name: Seq<char>| exists|i: int| 0 <= i < self.symbols.len() && self.symbols[i]@ == name)
    }
}

impl SymbolTable {
    /// No name is entered twice.
    #[verifier::type_invariant]
    spec fn distinct(&self) -> bool {
        forall|i: int, j: int|
            0 <= i < j < self.symbols.len() ==> self.symbols[i]@ != self.symbols[j]@
    }

    /// The empty table.
    pub fn new() -> (table: SymbolTable)
        ensures
            table@ == Set::<Seq<char>>::empty(),
    {
        let table = SymbolTable { symbols: Vec::new() };
        assert(table@ =~= Set::<Seq<char>>::empty());
        table
    }

    /// Runs the pass over `ast`, adding to the names already in the table.
    pub fn process_abstract_syntax_tree(&mut self, ast: &AbstractSyntaxTree) -> (result: Result<
        (),
        ResolveError,
    >)
        ensures
            final(self)@ == resolve(ast@, old(self)@).declared,
            match resolve(ast@, old(self)@).fault {
                None => result is Ok,
                Some(name) => result matches Err(ResolveError::UndeclaredAssignment(found))
                    && found@ == name,
            },
    {
        self.process_block(&ast.block)
    }

    /// Enters the name of `symbol`.
    pub fn define_symbol(&mut self, symbol: Symbol)
        ensures
            final(self)@ == old(self)@.insert(symbol@),
    {
        proof {
            use_type_invariant(&*self);
        }
        if self.position_of(symbol.name.as_str()).is_none() {
            let ghost before = self.symbols@;
            let mut symbols: Vec<Symbol> = Vec::new();
            std::mem::swap(&mut symbols, &mut self.symbols);
            symbols.push(symbol);
            std::mem::swap(&mut symbols, &mut self.symbols);
            assert forall|name: Seq<char>| #[trigger]
                final(self)@.contains(name) == old(self)@.insert(symbol@).contains(name) by {
                if old(self)@.contains(name) {
                    let i = choose|i: int| 0 <= i < before.len() && before[i]@ == name;
                    assert(self.symbols[i]@ == name);
                }
                if name == symbol@ {
                    assert(self.symbols[before.len() as int]@ == name);
                }
            }
            assert(self@ =~= old(self)@.insert(symbol@));
        } else {
            assert(self@ =~= old(self)@.insert(symbol@));
        }
    }

    /// The entry for `key`, where `key` has been declared.
    pub fn lookup(&self, key: &str) -> (found: Option<&Symbol>)
        ensures
            found is Some == self@.contains(key@),
            found matches Some(symbol) ==> symbol@ == key@,
    {
        match self.position_of(key) {
            Some(i) => Some(&self.symbols[i]),
            None => None,
        }
    }

    /// The declared names, each of them once.
    pub fn output(&self) -> (names: Vec<String>)
        ensures
            forall|i: int| 0 <= i < names@.len() ==> self@.contains(#[trigger] names@[i]@),
            forall|name: Seq<char>|
                self@.contains(name) ==> exists|i: int| 0 <= i < names@.len() && names@[i]@ == name,
            forall|i: int, j: int| 0 <= i < j < names@.len() ==> names@[i]@ != names@[j]@,
    {
        proof {
            use_type_invariant(self);
        }
        let mut names: Vec<String> = Vec::new();
        let mut i: usize = 0;
        while i < self.symbols.len()
            invariant
                i <= self.symbols.len(),
                names@.len() == i,
                forall|k: int| 0 <= k < i ==> (#[trigger] names@[k])@ == self.symbols[k]@,
            decreases self.symbols.len() - i,
        {
            names.push(self.symbols[i].name.clone());
            i += 1;
        }
        assert forall|name: Seq<char>| self@.contains(name) implies exists|i: int|
            0 <= i < names@.len() && names@[i]@ == name by {
            let k = choose|k: int| 0 <= k < self.symbols.len() && self.symbols[k]@ == name;
            assert(names@[k]@ == name);
        }
        names
    }

    /// Where `key` stands in the table.
    fn position_of(&self, key: &str) -> (found: Option<usize>)
        ensures
            found is Some == self@.contains(key@),
            found matches Some(i) ==> i < self.symbols.len() && self.symbols[i as int]@ == key@,
    {
        let mut i: usize = 0;
        while i < self.symbols.len()
            invariant
                i <= self.symbols.len(),
                forall|k: int| 0 <= k < i ==> self.symbols[k]@ != key@,
            decreases self.symbols.len() - i,
        {
            if same_text(self.symbols[i].name.as_str(), key) {
                return Some(i);
            }
            i += 1;
        }
        None
    }

    fn process_block(&mut self, block: &Block) -> (result: Result<(), ResolveError>)
        ensures
            final(self)@ == resolve_block(block@, 0, old(self)@).declared,
            match resolve_block(block@, 0, old(self)@).fault {
                None => result is Ok,
                Some(name) => result matches Err(ResolveError::UndeclaredAssignment(found))
                    && found@ == name,
            },
        decreases block@, block@.len(),
    {
        let mut i: usize = 0;
        while i < block.get_length()
            invariant
                i <= block@.len(),
                resolve_block(block@, 0, old(self)@) == resolve_block(block@, i as int, self@),
            decreases block@.len() - i,
        {
            self.process_statement(block.get_statement(i))?;
            i += 1;
        }
        Ok(())
    }

    fn process_statement(&mut self, statement: &Statement) -> (result: Result<(), ResolveError>)
        ensures
            final(self)@ == resolve_statement(statement@, old(self)@).declared,
            match resolve_statement(statement@, old(self)@).fault {
                None => result is Ok,
                Some(name) => result matches Err(ResolveError::UndeclaredAssignment(found))
                    && found@ == name,
            },
        decreases statement@, 0nat,
    {
        match statement {
            Statement::Let(ident, _) => {
                let symbol = Symbol { name: ident.symbol.clone() };
                self.define_symbol(symbol);
                Ok(())
            },
            Statement::Assignment(ident, _) => {
                let symbol = self.lookup(ident.symbol.as_str());
                if symbol.is_none() {
                    return Err(ResolveError::UndeclaredAssignment(ident.symbol.clone()));
                }
                Ok(())
            },
            Statement::If(if_statement) => self.process_chain(if_statement),
            Statement::While(_, block) => self.process_block(block),
            Statement::Print(_) => Ok(()),
        }
    }

    /// The pass over a clause of a conditional and the clauses behind it.
    fn process_chain(&mut self, chain: &IfStatement) -> (result: Result<(), ResolveError>)
        ensures
            final(self)@ == resolve_chain(chain@, old(self)@).declared,
            match resolve_chain(chain@, old(self)@).fault {
                None => result is Ok,
                Some(name) => result matches Err(ResolveError::UndeclaredAssignment(found))
                    && found@ == name,
            },
        decreases chain@, 0nat,
    {
        match chain {
            IfStatement::If(_, block, other) => {
                self.process_block(block)?;
                match other {
                    Some(next) => self.process_chain(next),
                    None => Ok(()),
                }
            },
            IfStatement::ElseIf(_, block, other) => {
                self.process_block(block)?;
                match other {
                    Some(next) => self.process_chain(next),
                    None => Ok(()),
                }
            },
            IfStatement::Else(block) => self.process_block(block),
        }
    }
}

} // verus!
