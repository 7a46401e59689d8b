//! What the declaration check decides, said without reference to how the
//! tree is walked: the declarations and assignments of a program form one
//! sequence, in source order, and the check fails at the first assignment
//! whose name no earlier entry declares.

use vstd::prelude::*;
use crate::interpreter::ast::IfView;
use crate::interpreter::ast::StatementView;
use crate::interpreter::symbol::resolve;
use crate::interpreter::symbol::resolve_block;
use crate::interpreter::symbol::resolve_chain;
use crate::interpreter::symbol::resolve_statement;
use crate::interpreter::symbol::Resolution;

verus! {

/// A place where a program names a variable as the target of a statement.
pub enum Target {
    /// `let name = ...`
    Declared(Seq<char>),
    /// `name = ...`
    Assigned(Seq<char>),
}

/// The targets of a statement, in source order.
pub open spec fn statement_targets(statement: StatementView) -> Seq<Target>
    decreases statement, 0nat,
{
    match statement {
        StatementView::Print(_) => Seq::empty(),
        StatementView::Let(name, _) => seq![Target::Declared(name)],
        StatementView::Assignment(name, _) => seq![Target::Assigned(name)],
        StatementView::If(chain) => chain_targets(chain),
        StatementView::While(_, body) => block_targets(body, 0),
    }
}

/// The targets of a clause of a conditional and of the clauses behind it.
pub open spec fn chain_targets(chain: IfView) -> Seq<Target>
    decreases chain, 0nat,
{
    match chain {
        IfView::If(_, body, other) => block_targets(body, 0)
            + match other {
            Some(next) => chain_targets(*next),
            None => Seq::empty(),
        },
        IfView::ElseIf(_, body, other) => block_targets(body, 0)
            + match other {
            Some(next) => chain_targets(*next),
            None => Seq::empty(),
        },
        IfView::Else(body) => block_targets(body, 0),
    }
}

/// The targets of the statements of a block from index `from` on.
pub open spec fn block_targets(statements: Seq<StatementView>, from: int) -> Seq<Target>
    decreases statements, statements.len() - from,
{
    if 0 <= from < statements.len() {
        statement_targets(statements[from]) + block_targets(statements, from + 1)
    } else {
        Seq::empty()
    }
}

/// The targets of a whole program.
pub open spec fn program_targets(program: Seq<StatementView>) -> Seq<Target> {
    block_targets(program, 0)
}

/// The names known in front of the target at index `upto`: those given at
/// the start and those that an earlier target declares.
pub open spec fn declared_before(
    targets: Seq<Target>,
    upto: int,
    declared: Set<Seq<char>>,
) -> Set<Seq<char>> {
    Set::new(
        |name: Seq<char>|
            declared.contains(name) || exists|j: int|
                0 <= j < upto && j < targets.len() && #[trigger] targets[j] == Target::Declared(
                    name,
                ),
    )
}

/// Whether the target at index `i` assigns to a name that is not known
/// there.
pub open spec fn undeclared_at(targets: Seq<Target>, i: int, declared: Set<Seq<char>>) -> bool {
    targets[i] matches Target::Assigned(name) && !declared_before(targets, i, declared).contains(
        name,
    )
}

/// Whether every assignment in front of index `upto` is to a known name.
pub open spec fn all_declared(targets: Seq<Target>, upto: int, declared: Set<Seq<char>>) -> bool {
    forall|i: int| 0 <= i < upto && i < targets.len() ==> !undeclared_at(targets, i, declared)
}

/// What the check has to say of a sequence of targets, in the terms above.
pub open spec fn describes(targets: Seq<Target>, declared: Set<Seq<char>>, found: Resolution) -> bool {
    match found.fault {
        None => {
            &&& all_declared(targets, targets.len() as int, declared)
            &&& found.declared == declared_before(targets, targets.len() as int, declared)
        },
        Some(name) => exists|i: int|
            {
                &&& 0 <= i < targets.len()
                &&& #[trigger] targets[i] == Target::Assigned(name)
                &&& undeclared_at(targets, i, declared)
                &&& all_declared(targets, i, declared)
                &&& found.declared == declared_before(targets, i, declared)
            },
    }
}

/// The check run over a sequence of targets one by one.
pub open spec fn scan(targets: Seq<Target>, declared: Set<Seq<char>>) -> Resolution
    decreases targets.len(),
{
    if targets.len() == 0 {
        Resolution { declared, fault: None }
    } else {
        let before = scan(targets.drop_last(), declared);
        if before.fault is None {
            match targets.last() {
                Target::Declared(name) => Resolution {
                    declared: before.declared.insert(name),
                    fault: None,
                },
                Target::Assigned(name) => if before.declared.contains(name) {
                    before
                } else {
                    Resolution { declared: before.declared, fault: Some(name) }
                },
            }
        } else {
            before
        }
    }
}

/// The check run over a second sequence of targets behind a first.
pub open spec fn scan_on(first: Resolution, targets: Seq<Target>) -> Resolution {
    if first.fault is None {
        scan(targets, first.declared)
    } else {
        first
    }
}

proof fn lemma_scan_concat(a: Seq<Target>, b: Seq<Target>, declared: Set<Seq<char>>)
    ensures
        scan(a + b, declared) == scan_on(scan(a, declared), b),
    decreases b.len(),
{
    if b.len() == 0 {
        assert(a + b =~= a);
    } else {
        assert((a + b).drop_last() =~= a + b.drop_last());
        assert((a + b).last() == b.last());
        lemma_scan_concat(a, b.drop_last(), declared);
    }
}

proof fn lemma_scan_single(target: Target, declared: Set<Seq<char>>)
    ensures
        scan(seq![target], declared) == match target {
            Target::Declared(name) => Resolution { declared: declared.insert(name), fault: None },
            Target::Assigned(name) => if declared.contains(name) {
                Resolution { declared, fault: None }
            } else {
                Resolution { declared, fault: Some(name) }
            },
        },
{
    let one = seq![target];
    assert(one.drop_last() =~= Seq::<Target>::empty());
    assert(one.last() == target);
    reveal_with_fuel(scan, 2);
}

proof fn lemma_statement_scans(statement: StatementView, declared: Set<Seq<char>>)
    ensures
        resolve_statement(statement, declared) == scan(statement_targets(statement), declared),
    decreases statement, 0nat,
{
    match statement {
        StatementView::Print(_) => {},
        StatementView::Let(name, _) => {
            lemma_scan_single(Target::Declared(name), declared);
        },
        StatementView::Assignment(name, _) => {
            lemma_scan_single(Target::Assigned(name), declared);
        },
        StatementView::If(chain) => {
            lemma_chain_scans(chain, declared);
        },
        StatementView::While(_, body) => {
            lemma_block_scans(body, 0, declared);
        },
    }
}

proof fn lemma_chain_scans(chain: IfView, declared: Set<Seq<char>>)
    ensures
        resolve_chain(chain, declared) == scan(chain_targets(chain), declared),
    decreases chain, 0nat,
{
    match chain {
        IfView::If(_, body, other) => {
            lemma_block_scans(body, 0, declared);
            let first = resolve_block(body, 0, declared);
            match other {
                Some(next) => {
                    lemma_scan_concat(block_targets(body, 0), chain_targets(*next), declared);
                    if first.fault is None {
                        lemma_chain_scans(*next, first.declared);
                    }
                },
                None => {
                    assert(block_targets(body, 0) + Seq::<Target>::empty() =~= block_targets(
                        body,
                        0,
                    ));
                },
            }
        },
        IfView::ElseIf(_, body, other) => {
            lemma_block_scans(body, 0, declared);
            let first = resolve_block(body, 0, declared);
            match other {
                Some(next) => {
                    lemma_scan_concat(block_targets(body, 0), chain_targets(*next), declared);
                    if first.fault is None {
                        lemma_chain_scans(*next, first.declared);
                    }
                },
                None => {
                    assert(block_targets(body, 0) + Seq::<Target>::empty() =~= block_targets(
                        body,
                        0,
                    ));
                },
            }
        },
        IfView::Else(body) => {
            lemma_block_scans(body, 0, declared);
        },
    }
}

proof fn lemma_block_scans(statements: Seq<StatementView>, from: int, declared: Set<Seq<char>>)
    ensures
        resolve_block(statements, from, declared) == scan(
            block_targets(statements, from),
            declared,
        ),
    decreases statements, statements.len() - from,
{
    if 0 <= from < statements.len() {
        lemma_statement_scans(statements[from], declared);
        let first = resolve_statement(statements[from], declared);
        lemma_scan_concat(
            statement_targets(statements[from]),
            block_targets(statements, from + 1),
            declared,
        );
        if first.fault is None {
            lemma_block_scans(statements, from + 1, first.declared);
        }
    }
}

proof fn lemma_prefix_agrees(targets: Seq<Target>, declared: Set<Seq<char>>)
    requires
        targets.len() > 0,
    ensures
        forall|i: int|
            0 <= i <= targets.len() - 1 ==> #[trigger] declared_before(
                targets.drop_last(),
                i,
                declared,
            ) == declared_before(targets, i, declared),
        forall|i: int|
            0 <= i < targets.len() - 1 ==> #[trigger] undeclared_at(
                targets.drop_last(),
                i,
                declared,
            ) == undeclared_at(targets, i, declared),
{
    let shorter = targets.drop_last();
    assert forall|i: int| 0 <= i <= targets.len() - 1 implies #[trigger] declared_before(
        shorter,
        i,
        declared,
    ) == declared_before(targets, i, declared) by {
        assert forall|name: Seq<char>|
            declared_before(shorter, i, declared).contains(name) == declared_before(
                targets,
                i,
                declared,
            ).contains(name) by {
            if declared_before(shorter, i, declared).contains(name) && !declared.contains(name) {
                let j = choose|j: int|
                    0 <= j < i && j < shorter.len() && #[trigger] shorter[j] == Target::Declared(
                        name,
                    );
                assert(targets[j] == Target::Declared(name));
            }
            if declared_before(targets, i, declared).contains(name) && !declared.contains(name) {
                let j = choose|j: int|
                    0 <= j < i && j < targets.len() && #[trigger] targets[j] == Target::Declared(
                        name,
                    );
                assert(shorter[j] == Target::Declared(name));
            }
        }
        assert(declared_before(shorter, i, declared) =~= declared_before(targets, i, declared));
    }
}

proof fn lemma_scan_described(targets: Seq<Target>, declared: Set<Seq<char>>)
    ensures
        describes(targets, declared, scan(targets, declared)),
    decreases targets.len(),
{
    let found = scan(targets, declared);
    if targets.len() == 0 {
        assert(found.declared =~= declared_before(targets, 0, declared));
    } else {
        let shorter = targets.drop_last();
        let last = targets.len() - 1;
        let before = scan(shorter, declared);
        lemma_scan_described(shorter, declared);
        lemma_prefix_agrees(targets, declared);
        match before.fault {
            None => {
                assert(before.declared == declared_before(targets, last, declared));
                assert forall|i: int| 0 <= i < last implies !undeclared_at(
                    targets,
                    i,
                    declared,
                ) by {
                    assert(!undeclared_at(shorter, i, declared));
                }
                match targets.last() {
                    Target::Declared(name) => {
                        assert(targets[last] == Target::Declared(name));
                        assert(found.declared =~= declared_before(
                            targets,
                            targets.len() as int,
                            declared,
                        )) by {
                            assert forall|other: Seq<char>|
                                declared_before(
                                    targets,
                                    targets.len() as int,
                                    declared,
                                ).contains(other) implies found.declared.contains(other) by {
                                if !declared.contains(other) {
                                    let j = choose|j: int|
                                        0 <= j < targets.len() && #[trigger] targets[j]
                                            == Target::Declared(other);
                                    if j < last {
                                        assert(declared_before(targets, last, declared).contains(
                                            other,
                                        ));
                                    }
                                }
                            }
                        }
                    },
                    Target::Assigned(name) => {
                        assert(declared_before(targets, targets.len() as int, declared)
                            =~= declared_before(targets, last, declared)) by {
                            assert forall|other: Seq<char>|
                                declared_before(
                                    targets,
                                    targets.len() as int,
                                    declared,
                                ).contains(other) implies declared_before(
                                targets,
                                last,
                                declared,
                            ).contains(other) by {
                                if !declared.contains(other) {
                                    let j = choose|j: int|
                                        0 <= j < targets.len() && #[trigger] targets[j]
                                            == Target::Declared(other);
                                    assert(j < last);
                                }
                            }
                        }
                        if before.declared.contains(name) {
                        } else {
                            assert(targets[last] == Target::Assigned(name));
                            assert(undeclared_at(targets, last, declared));
                        }
                    },
                }
            },
            Some(name) => {
                let i = choose|i: int|
                    {
                        &&& 0 <= i < shorter.len()
                        &&& #[trigger] shorter[i] == Target::Assigned(name)
                        &&& undeclared_at(shorter, i, declared)
                        &&& all_declared(shorter, i, declared)
                        &&& before.declared == declared_before(shorter, i, declared)
                    };
                assert(targets[i] == Target::Assigned(name));
                assert forall|k: int| 0 <= k < i implies !undeclared_at(targets, k, declared) by {
                    assert(!undeclared_at(shorter, k, declared));
                }
            },
        }
    }
}

/// The declaration check fails exactly when some assignment, in source
/// order, names a variable that neither the table held at the start nor an
/// earlier `let` declares. It then reports the first such assignment and
/// holds the names known in front of it; otherwise it ends holding the
/// names given at the start and every declared name.
pub proof fn lemma_resolution_described(program: Seq<StatementView>, declared: Set<Seq<char>>)
    ensures
        describes(program_targets(program), declared, resolve(program, declared)),
{
    lemma_block_scans(program, 0, declared);
    lemma_scan_described(program_targets(program), declared);
}

/// A program in which every assignment is to a name declared earlier, or
/// known at the start, passes the declaration check.
pub proof fn lemma_declared_then_assigned_resolves(
    program: Seq<StatementView>,
    declared: Set<Seq<char>>,
)
    requires
        all_declared(
            program_targets(program),
            program_targets(program).len() as int,
            declared,
        ),
    ensures
        resolve(program, declared).fault is None,
{
    lemma_resolution_described(program, declared);
}


/// Whether the table holds the name of every declaration and assignment in
/// the statement, at any depth.
pub open spec fn statement_covered(statement: StatementView, table: Set<Seq<char>>) -> bool
    decreases statement,
{
    match statement {
        StatementView::Print(_) => true,
        StatementView::Let(name, _) => table.contains(name),
        StatementView::Assignment(name, _) => table.contains(name),
        StatementView::If(chain) => chain_covered(chain, table),
        StatementView::While(_, body) => block_covered(body, table),
    }
}

/// Whether the table holds the name of every target in the clause and in
/// the clauses behind it.
pub open spec fn chain_covered(chain: IfView, table: Set<Seq<char>>) -> bool
    decreases chain,
{
    match chain {
        IfView::If(_, body, other) => block_covered(body, table)
            && match other {
            Some(next) => chain_covered(*next, table),
            None => true,
        },
        IfView::ElseIf(_, body, other) => block_covered(body, table)
            && match other {
            Some(next) => chain_covered(*next, table),
            None => true,
        },
        IfView::Else(body) => block_covered(body, table),
    }
}

/// Whether the table holds the name of every target in the block.
pub open spec fn block_covered(statements: Seq<StatementView>, table: Set<Seq<char>>) -> bool
    decreases statements,
{
    forall|i: int|
        0 <= i < statements.len() ==> statement_covered(#[trigger] statements[i], table)
}

proof fn lemma_resolve_statement_grows(statement: StatementView, declared: Set<Seq<char>>)
    ensures
        declared.subset_of(resolve_statement(statement, declared).declared),
    decreases statement, 0nat,
{
    match statement {
        StatementView::If(chain) => {
            lemma_resolve_chain_grows(chain, declared);
        },
        StatementView::While(_, body) => {
            lemma_resolve_block_grows(body, 0, declared);
        },
        _ => {},
    }
}

proof fn lemma_resolve_chain_grows(chain: IfView, declared: Set<Seq<char>>)
    ensures
        declared.subset_of(resolve_chain(chain, declared).declared),
    decreases chain, 0nat,
{
    match chain {
        IfView::If(_, body, other) => {
            lemma_resolve_block_grows(body, 0, declared);
            let first = resolve_block(body, 0, declared);
            match other {
                Some(next) => {
                    if first.fault is None {
                        lemma_resolve_chain_grows(*next, first.declared);
                    }
                },
                None => {},
            }
        },
        IfView::ElseIf(_, body, other) => {
            lemma_resolve_block_grows(body, 0, declared);
            let first = resolve_block(body, 0, declared);
            match other {
                Some(next) => {
                    if first.fault is None {
                        lemma_resolve_chain_grows(*next, first.declared);
                    }
                },
                None => {},
            }
        },
        IfView::Else(body) => {
            lemma_resolve_block_grows(body, 0, declared);
        },
    }
}

proof fn lemma_resolve_block_grows(
    statements: Seq<StatementView>,
    from: int,
    declared: Set<Seq<char>>,
)
    ensures
        declared.subset_of(resolve_block(statements, from, declared).declared),
    decreases statements, statements.len() - from,
{
    if 0 <= from < statements.len() {
        lemma_resolve_statement_grows(statements[from], declared);
        let first = resolve_statement(statements[from], declared);
        if first.fault is None {
            lemma_resolve_block_grows(statements, from + 1, first.declared);
        }
    }
}

/// What a table covers, a larger table covers too.
proof fn lemma_statement_covered_grows(
    statement: StatementView,
    table: Set<Seq<char>>,
    larger: Set<Seq<char>>,
)
    requires
        table.subset_of(larger),
        statement_covered(statement, table),
    ensures
        statement_covered(statement, larger),
    decreases statement,
{
    match statement {
        StatementView::If(chain) => {
            lemma_chain_covered_grows(chain, table, larger);
        },
        StatementView::While(_, body) => {
            lemma_block_covered_grows(body, table, larger);
        },
        _ => {},
    }
}

proof fn lemma_chain_covered_grows(
    chain: IfView,
    table: Set<Seq<char>>,
    larger: Set<Seq<char>>,
)
    requires
        table.subset_of(larger),
        chain_covered(chain, table),
    ensures
        chain_covered(chain, larger),
    decreases chain,
{
    match chain {
        IfView::If(_, body, other) => {
            lemma_block_covered_grows(body, table, larger);
            match other {
                Some(next) => {
                    lemma_chain_covered_grows(*next, table, larger);
                },
                None => {},
            }
        },
        IfView::ElseIf(_, body, other) => {
            lemma_block_covered_grows(body, table, larger);
            match other {
                Some(next) => {
                    lemma_chain_covered_grows(*next, table, larger);
                },
                None => {},
            }
        },
        IfView::Else(body) => {
            lemma_block_covered_grows(body, table, larger);
        },
    }
}

proof fn lemma_block_covered_grows(
    statements: Seq<StatementView>,
    table: Set<Seq<char>>,
    larger: Set<Seq<char>>,
)
    requires
        table.subset_of(larger),
        block_covered(statements, table),
    ensures
        block_covered(statements, larger),
    decreases statements,
{
    assert forall|i: int| 0 <= i < statements.len() implies statement_covered(
        #[trigger] statements[i],
        larger,
    ) by {
        lemma_statement_covered_grows(statements[i], table, larger);
    }
}

proof fn lemma_statement_resolved_is_covered(statement: StatementView, declared: Set<Seq<char>>)
    requires
        resolve_statement(statement, declared).fault is None,
    ensures
        statement_covered(statement, resolve_statement(statement, declared).declared),
    decreases statement, 0nat,
{
    match statement {
        StatementView::If(chain) => {
            lemma_chain_resolved_is_covered(chain, declared);
        },
        StatementView::While(_, body) => {
            lemma_block_resolved_is_covered(body, 0, declared);
        },
        _ => {},
    }
}

proof fn lemma_chain_resolved_is_covered(chain: IfView, declared: Set<Seq<char>>)
    requires
        resolve_chain(chain, declared).fault is None,
    ensures
        chain_covered(chain, resolve_chain(chain, declared).declared),
    decreases chain, 0nat,
{
    match chain {
        IfView::If(_, body, other) => {
            let first = resolve_block(body, 0, declared);
            lemma_block_resolved_is_covered(body, 0, declared);
            assert(block_covered(body, first.declared));
            match other {
                Some(next) => {
                    lemma_chain_resolved_is_covered(*next, first.declared);
                    lemma_resolve_chain_grows(*next, first.declared);
                    lemma_block_covered_grows(
                        body,
                        first.declared,
                        resolve_chain(*next, first.declared).declared,
                    );
                },
                None => {},
            }
        },
        IfView::ElseIf(_, body, other) => {
            let first = resolve_block(body, 0, declared);
            lemma_block_resolved_is_covered(body, 0, declared);
            assert(block_covered(body, first.declared));
            match other {
                Some(next) => {
                    lemma_chain_resolved_is_covered(*next, first.declared);
                    lemma_resolve_chain_grows(*next, first.declared);
                    lemma_block_covered_grows(
                        body,
                        first.declared,
                        resolve_chain(*next, first.declared).declared,
                    );
                },
                None => {},
            }
        },
        IfView::Else(body) => {
            lemma_block_resolved_is_covered(body, 0, declared);
            assert(block_covered(body, resolve_block(body, 0, declared).declared));
        },
    }
}

proof fn lemma_block_resolved_is_covered(
    statements: Seq<StatementView>,
    from: int,
    declared: Set<Seq<char>>,
)
    requires
        0 <= from,
        resolve_block(statements, from, declared).fault is None,
    ensures
        forall|i: int|
            from <= i < statements.len() ==> statement_covered(
                #[trigger] statements[i],
                resolve_block(statements, from, declared).declared,
            ),
    decreases statements, statements.len() - from,
{
    if from < statements.len() {
        let first = resolve_statement(statements[from], declared);
        let all = resolve_block(statements, from, declared).declared;
        lemma_statement_resolved_is_covered(statements[from], declared);
        lemma_block_resolved_is_covered(statements, from + 1, first.declared);
        lemma_resolve_block_grows(statements, from + 1, first.declared);
        lemma_statement_covered_grows(statements[from], first.declared, all);
    }
}

/// The declaration check only ever adds names to the table, whether it
/// finds a fault or not.
pub proof fn lemma_resolution_grows(program: Seq<StatementView>, declared: Set<Seq<char>>)
    ensures
        declared.subset_of(resolve(program, declared).declared),
{
    lemma_resolve_block_grows(program, 0, declared);
}

/// After a declaration check that found no fault, the table holds the name
/// of every declaration and every assignment of the program.
pub proof fn lemma_resolved_is_covered(program: Seq<StatementView>, declared: Set<Seq<char>>)
    requires
        resolve(program, declared).fault is None,
    ensures
        block_covered(program, resolve(program, declared).declared),
{
    lemma_block_resolved_is_covered(program, 0, declared);
}

} // verus!
