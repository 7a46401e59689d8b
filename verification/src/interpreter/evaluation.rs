//! What a program means, and that the machine runs it so.
//!
//! The machine of [`crate::interpreter::intr`] moves in small transitions
//! and leaves the arithmetic to its driver. Here the meaning of the
//! language is defined directly, for a given arithmetic: the value of an
//! expression, the truth of a condition, and what a statement, a block and
//! a whole program come to, that is, which lines are printed and which
//! values the variables end up with, or with which fault the program fails.
//! The machine is then shown to arrive at exactly that when it is driven
//! with the answers of that arithmetic.
//!
//! A loop may never end. What a program comes to is therefore defined for a
//! bound on the rounds of its loops; the machine itself knows no bound.

use vstd::prelude::*;
use crate::interpreter::ast::ConditionView;
use crate::interpreter::ast::ExpressionView;
use crate::interpreter::ast::IfView;
use crate::interpreter::ast::LiteralView;
use crate::interpreter::ast::Operator;
use crate::interpreter::ast::StatementView;
use crate::interpreter::intr::begin_chain;
use crate::interpreter::intr::comparator_holds;
use crate::interpreter::intr::expected;
use crate::interpreter::intr::initial;
use crate::interpreter::intr::lemma_faults_are_the_programs;
use crate::interpreter::intr::lemma_step_wf;
use crate::interpreter::intr::machine_wf;
use crate::interpreter::intr::step;
use crate::interpreter::intr::step_truth;
use crate::interpreter::intr::ActionView;
use crate::interpreter::intr::EventView;
use crate::interpreter::intr::FaultView;
use crate::interpreter::intr::FocusView;
use crate::interpreter::intr::FrameView;
use crate::interpreter::intr::MachineView;
use crate::interpreter::intr::Number;
use crate::interpreter::intr::Relation;
use crate::interpreter::scope::all_declared;
use crate::interpreter::scope::lemma_declared_then_assigned_resolves;
use crate::interpreter::scope::program_targets;
use crate::interpreter::symbol::resolve;

verus! {

/// The arithmetic that a driver supplies: which texts are numbers, what an
/// operator makes of two numbers, and how two numbers compare.
pub struct Arithmetic {
    pub read: spec_fn(Seq<char>) -> Option<Number>,
    pub compute: spec_fn(Operator, Number, Number) -> Seq<char>,
    pub relate: spec_fn(Number, Number) -> Relation,
}

/// The answer of a driver with this arithmetic to an action.
pub open spec fn answer(arithmetic: Arithmetic, action: ActionView) -> EventView {
    match action {
        ActionView::Parse(text) => EventView::Parsed((arithmetic.read)(text)),
        ActionView::Compute(operator, left, right) => EventView::Computed(
            (arithmetic.compute)(operator, left, right),
        ),
        ActionView::Compare(left, right) => EventView::Compared((arithmetic.relate)(left, right)),
        _ => EventView::Resume,
    }
}

/// Where a stretch of a run has led: the machine, the action it returned
/// last, and the lines it has asked to be printed on the way, in order.
pub struct Run {
    pub machine: MachineView,
    pub action: ActionView,
    pub printed: Seq<Seq<char>>,
}

/// The line that an action asks to be printed, if it asks for one.
pub open spec fn line_of(action: ActionView) -> Seq<Seq<char>> {
    match action {
        ActionView::Print(text) => seq![text],
        _ => Seq::empty(),
    }
}

/// Where the machine is after it has taken `event` and then `further` more
/// transitions, each with the driver's answer to the action before.
pub open spec fn run(arithmetic: Arithmetic, m: MachineView, event: EventView, further: nat) -> Run
    decreases further,
{
    let first = step(m, event);
    if further == 0 {
        Run { machine: first.0, action: first.1, printed: line_of(first.1) }
    } else {
        let rest = run(arithmetic, first.0, answer(arithmetic, first.1), (further - 1) as nat);
        Run {
            machine: rest.machine,
            action: rest.action,
            printed: line_of(first.1) + rest.printed,
        }
    }
}

/// One stretch of a run and then another, as one.
pub open spec fn joined(first: Run, second: Run) -> Run {
    Run {
        machine: second.machine,
        action: second.action,
        printed: first.printed + second.printed,
    }
}

/// The number that an operand denotes, or the fault of handing an operator
/// a text that is no number.
pub open spec fn operand(arithmetic: Arithmetic, text: Seq<char>) -> Result<Number, FaultView> {
    match (arithmetic.read)(text) {
        Some(number) => Ok(number),
        None => Err(FaultView::NotNumeric(text)),
    }
}

/// The value of an expression: a text, or the first fault met when the
/// expression is evaluated from left to right.
///
/// A literal is its text as written. A variable is its value in the store.
/// A unary operation is its operand, which must be a number, with the text
/// unchanged and the sign not applied. A binary operation reads its left
/// operand as a number, then evaluates its right operand and reads that,
/// and is the text that the arithmetic makes of the two.
pub open spec fn value(
    arithmetic: Arithmetic,
    store: Map<Seq<char>, Seq<char>>,
    expression: ExpressionView,
) -> Result<Seq<char>, FaultView>
    decreases expression,
{
    match expression {
        ExpressionView::Literal(LiteralView::String(text)) => Ok(text),
        ExpressionView::Literal(LiteralView::Number(text)) => Ok(text),
        ExpressionView::Ident(name) => if store.contains_key(name) {
            Ok(store[name])
        } else {
            Err(FaultView::UnassignedVariable(name))
        },
        ExpressionView::UnaryOp(_, inner) => match value(arithmetic, store, *inner) {
            Ok(text) => match operand(arithmetic, text) {
                Ok(_) => Ok(text),
                Err(fault) => Err(fault),
            },
            Err(fault) => Err(fault),
        },
        ExpressionView::BinaryOp(left, operator, right) => match value(arithmetic, store, *left) {
            Ok(left_text) => match operand(arithmetic, left_text) {
                Ok(left_number) => match value(arithmetic, store, *right) {
                    Ok(right_text) => match operand(arithmetic, right_text) {
                        Ok(right_number) => Ok(
                            (arithmetic.compute)(operator, left_number, right_number),
                        ),
                        Err(fault) => Err(fault),
                    },
                    Err(fault) => Err(fault),
                },
                Err(fault) => Err(fault),
            },
            Err(fault) => Err(fault),
        },
    }
}

/// How many transitions the machine takes over an expression, up to the
/// one that yields its value or its fault.
pub open spec fn transitions(
    arithmetic: Arithmetic,
    store: Map<Seq<char>, Seq<char>>,
    expression: ExpressionView,
) -> nat
    decreases expression,
{
    match expression {
        ExpressionView::Literal(_) => 1,
        ExpressionView::Ident(_) => 1,
        ExpressionView::UnaryOp(_, inner) => 1 + transitions(arithmetic, store, *inner) + (
        if value(arithmetic, store, *inner) is Ok {
            2nat
        } else {
            0nat
        }),
        ExpressionView::BinaryOp(left, _, right) => 1 + transitions(arithmetic, store, *left)
            + (match value(arithmetic, store, *left) {
            Ok(left_text) => 2 + (match operand(arithmetic, left_text) {
                Ok(_) => transitions(arithmetic, store, *right) + (match value(
                    arithmetic,
                    store,
                    *right,
                ) {
                    Ok(right_text) => 2 + (match operand(arithmetic, right_text) {
                        Ok(_) => 1nat,
                        Err(_) => 0nat,
                    }),
                    Err(_) => 0nat,
                }),
                Err(_) => 0nat,
            }),
            Err(_) => 0nat,
        }),
    }
}

/// Whether `end` is where evaluating to `outcome` leads from the machine
/// `before`: with a value the machine is as before but for the value in
/// hand, and with a fault the run has ended with that fault. Nothing is
/// printed on the way.
pub open spec fn yields(before: MachineView, outcome: Result<Seq<char>, FaultView>, end: Run) -> bool {
    &&& end.printed == Seq::<Seq<char>>::empty()
    &&& match outcome {
        Ok(text) => end.action == ActionView::Continue && end.machine == (MachineView {
            focus: FocusView::Text(text),
            ..before
        }),
        Err(fault) => end.action == ActionView::Abort(fault) && end.machine.focus
            == FocusView::Stopped && end.machine.store == before.store && end.machine.declared
            == before.declared,
    }
}

proof fn lemma_transitions_positive(
    arithmetic: Arithmetic,
    store: Map<Seq<char>, Seq<char>>,
    expression: ExpressionView,
)
    ensures
        transitions(arithmetic, store, expression) >= 1,
{
}

/// A run of `first + 1 + rest + 1` transitions is a run of `first + 1`
/// transitions and then one of `rest + 1`.
pub proof fn lemma_run_split(
    arithmetic: Arithmetic,
    m: MachineView,
    event: EventView,
    first: nat,
    rest: nat,
)
    ensures
        run(arithmetic, m, event, first + rest + 1) == joined(
            run(arithmetic, m, event, first),
            run(
                arithmetic,
                run(arithmetic, m, event, first).machine,
                answer(arithmetic, run(arithmetic, m, event, first).action),
                rest,
            ),
        ),
    decreases first,
{
    let one = step(m, event);
    let whole = run(arithmetic, m, event, first + rest + 1);
    let head = run(arithmetic, m, event, first);
    let tail = run(arithmetic, head.machine, answer(arithmetic, head.action), rest);
    if first > 0 {
        lemma_run_split(
            arithmetic,
            one.0,
            answer(arithmetic, one.1),
            (first - 1) as nat,
            rest,
        );
    }
    assert(whole.printed =~= head.printed + tail.printed);
}

/// The first transition of a stretch, taken apart from the rest.
proof fn lemma_run_first(arithmetic: Arithmetic, m: MachineView, event: EventView, further: nat)
    requires
        further > 0,
    ensures
        run(arithmetic, m, event, further) == joined(
            run(arithmetic, m, event, 0),
            run(
                arithmetic,
                step(m, event).0,
                answer(arithmetic, step(m, event).1),
                (further - 1) as nat,
            ),
        ),
{
}

proof fn lemma_run_two(arithmetic: Arithmetic, m: MachineView, event: EventView)
    ensures
        run(arithmetic, m, event, 0) == (Run {
            machine: step(m, event).0,
            action: step(m, event).1,
            printed: line_of(step(m, event).1),
        }),
        run(arithmetic, m, event, 1) == joined(
            run(arithmetic, m, event, 0),
            run(arithmetic, step(m, event).0, answer(arithmetic, step(m, event).1), 0),
        ),
{
    reveal_with_fuel(run, 2);
}

/// The machine evaluates an expression to its value.
///
/// A machine that has the expression in hand and is driven with the answers
/// of `arithmetic` has after `transitions` transitions either the value of
/// the expression in hand, with its stack, store and table as they were, or
/// has ended the run with the fault that the value is.
pub proof fn lemma_expression_evaluates(
    arithmetic: Arithmetic,
    m: MachineView,
    expression: ExpressionView,
)
    requires
        m.focus == FocusView::Expression(expression),
    ensures
        yields(
            m,
            value(arithmetic, m.store, expression),
            run(
                arithmetic,
                m,
                EventView::Resume,
                (transitions(arithmetic, m.store, expression) - 1) as nat,
            ),
        ),
    decreases expression,
{
    let store = m.store;
    let none = Seq::<Seq<char>>::empty();
    match expression {
        ExpressionView::Literal(LiteralView::String(_)) => {},
        ExpressionView::Literal(LiteralView::Number(_)) => {},
        ExpressionView::Ident(_) => {},
        ExpressionView::UnaryOp(_, inner) => {
            let inner = *inner;
            let n = transitions(arithmetic, store, inner);
            // one transition puts the sign on the stack
            let m1 = step(m, EventView::Resume).0;
            assert(m1 == MachineView {
                frames: m.frames.push(FrameView::Sign),
                focus: FocusView::Expression(inner),
                ..m
            });
            lemma_expression_evaluates(arithmetic, m1, inner);
            let mid = run(arithmetic, m1, EventView::Resume, (n - 1) as nat);
            lemma_run_first(arithmetic, m, EventView::Resume, n);
            let so_far = run(arithmetic, m, EventView::Resume, n);
            assert(so_far.printed =~= none);
            assert(so_far == mid);
            match value(arithmetic, store, inner) {
                Ok(text) => {
                    // two more: the text is sent out, and the answer is taken
                    lemma_run_split(arithmetic, m, EventView::Resume, n, 1);
                    lemma_run_two(arithmetic, mid.machine, EventView::Resume);
                    let asked = step(mid.machine, EventView::Resume);
                    assert(mid.machine.frames.last() == FrameView::Sign);
                    assert(asked.1 == ActionView::Parse(text));
                    let taken = run(arithmetic, asked.0, answer(arithmetic, asked.1), 0);
                    assert(mid.machine.frames.drop_last() =~= m.frames);
                    let end = run(arithmetic, m, EventView::Resume, n + 2);
                    assert(end.printed =~= none);
                },
                Err(_) => {},
            }
        },
        ExpressionView::BinaryOp(left, operator, right) => {
            let left = *left;
            let right = *right;
            let n_left = transitions(arithmetic, store, left);
            let m1 = step(m, EventView::Resume).0;
            assert(m1 == MachineView {
                frames: m.frames.push(FrameView::Left(operator, right)),
                focus: FocusView::Expression(left),
                ..m
            });
            lemma_expression_evaluates(arithmetic, m1, left);
            let mid = run(arithmetic, m1, EventView::Resume, (n_left - 1) as nat);
            lemma_run_first(arithmetic, m, EventView::Resume, n_left);
            let so_far = run(arithmetic, m, EventView::Resume, n_left);
            assert(so_far.printed =~= none);
            assert(so_far == mid);
            match value(arithmetic, store, left) {
                Ok(left_text) => {
                    // the left operand is sent out, and the answer is taken
                    lemma_run_split(arithmetic, m, EventView::Resume, n_left, 1);
                    lemma_run_two(arithmetic, mid.machine, EventView::Resume);
                    let asked = step(mid.machine, EventView::Resume);
                    assert(mid.machine.frames.last() == FrameView::Left(operator, right));
                    assert(asked.1 == ActionView::Parse(left_text));
                    let taken = run(arithmetic, asked.0, answer(arithmetic, asked.1), 0);
                    let at_right = run(arithmetic, m, EventView::Resume, n_left + 2);
                    assert(at_right.printed =~= none);
                    assert(at_right.machine == taken.machine && at_right.action == taken.action);
                    assert(mid.machine.frames.drop_last() =~= m.frames);
                    match operand(arithmetic, left_text) {
                        Ok(left_number) => {
                            let m2 = taken.machine;
                            assert(m2 == MachineView {
                                frames: m.frames.push(FrameView::Right(operator, left_number)),
                                focus: FocusView::Expression(right),
                                ..m
                            });
                            assert(taken.action == ActionView::Continue);
                            let n_right = transitions(arithmetic, store, right);
                            lemma_expression_evaluates(arithmetic, m2, right);
                            let late = run(
                                arithmetic,
                                m2,
                                EventView::Resume,
                                (n_right - 1) as nat,
                            );
                            lemma_run_split(
                                arithmetic,
                                m,
                                EventView::Resume,
                                n_left + 2,
                                (n_right - 1) as nat,
                            );
                            let behind = run(
                                arithmetic,
                                m,
                                EventView::Resume,
                                n_left + 2 + n_right,
                            );
                            assert(behind.printed =~= none);
                            assert(behind == late);
                            match value(arithmetic, store, right) {
                                Ok(right_text) => {
                                    lemma_run_split(
                                        arithmetic,
                                        m,
                                        EventView::Resume,
                                        n_left + 2 + n_right,
                                        1,
                                    );
                                    lemma_run_two(arithmetic, late.machine, EventView::Resume);
                                    let asked2 = step(late.machine, EventView::Resume);
                                    assert(late.machine.frames.last() == FrameView::Right(
                                        operator,
                                        left_number,
                                    ));
                                    assert(asked2.1 == ActionView::Parse(right_text));
                                    let taken2 = run(
                                        arithmetic,
                                        asked2.0,
                                        answer(arithmetic, asked2.1),
                                        0,
                                    );
                                    assert(late.machine.frames.drop_last() =~= m.frames);
                                    let sent = run(
                                        arithmetic,
                                        m,
                                        EventView::Resume,
                                        n_left + 2 + n_right + 2,
                                    );
                                    assert(sent.printed =~= none);
                                    assert(sent.machine == taken2.machine && sent.action
                                        == taken2.action);
                                    match operand(arithmetic, right_text) {
                                        Ok(right_number) => {
                                            lemma_run_split(
                                                arithmetic,
                                                m,
                                                EventView::Resume,
                                                n_left + 2 + n_right + 2,
                                                0,
                                            );
                                            assert(taken2.action == ActionView::Compute(
                                                operator,
                                                left_number,
                                                right_number,
                                            ));
                                            let end = run(
                                                arithmetic,
                                                m,
                                                EventView::Resume,
                                                n_left + 2 + n_right + 3,
                                            );
                                            assert(end.printed =~= none);
                                        },
                                        Err(_) => {},
                                    }
                                },
                                Err(_) => {},
                            }
                        },
                        Err(_) => {},
                    }
                },
                Err(_) => {},
            }
        },
    }
}

/// The truth of a condition: both sides are evaluated and read as numbers,
/// the left side first, and the comparator is decided for how the
/// arithmetic relates the two; or the first fault met on the way.
pub open spec fn truth(
    arithmetic: Arithmetic,
    store: Map<Seq<char>, Seq<char>>,
    test: ConditionView,
) -> Result<bool, FaultView> {
    match value(arithmetic, store, test.left) {
        Ok(left_text) => match operand(arithmetic, left_text) {
            Ok(left_number) => match value(arithmetic, store, test.right) {
                Ok(right_text) => match operand(arithmetic, right_text) {
                    Ok(right_number) => Ok(
                        comparator_holds(
                            test.comparator,
                            (arithmetic.relate)(left_number, right_number),
                        ),
                    ),
                    Err(fault) => Err(fault),
                },
                Err(fault) => Err(fault),
            },
            Err(fault) => Err(fault),
        },
        Err(fault) => Err(fault),
    }
}

/// How many transitions the machine takes over a condition, from the one
/// that begins its left side up to the one that acts on its truth or ends
/// the run.
pub open spec fn test_transitions(
    arithmetic: Arithmetic,
    store: Map<Seq<char>, Seq<char>>,
    test: ConditionView,
) -> nat {
    transitions(arithmetic, store, test.left) + (match value(arithmetic, store, test.left) {
        Ok(left_text) => 2 + (match operand(arithmetic, left_text) {
            Ok(_) => transitions(arithmetic, store, test.right) + (match value(
                arithmetic,
                store,
                test.right,
            ) {
                Ok(right_text) => 2 + (match operand(arithmetic, right_text) {
                    Ok(_) => 1nat,
                    Err(_) => 0nat,
                }),
                Err(_) => 0nat,
            }),
            Err(_) => 0nat,
        }),
        Err(_) => 0nat,
    })
}

/// Whether `end` is where deciding a condition with `outcome` leads from a
/// machine whose stack, below the condition, is `below`: with a truth, the
/// frame on top of `below` has acted on it as [`step_truth`] says, and with
/// a fault the run has ended with that fault. Nothing is printed on the
/// way.
pub open spec fn decides(
    before: MachineView,
    below: Seq<FrameView>,
    test: ConditionView,
    outcome: Result<bool, FaultView>,
    end: Run,
) -> bool {
    &&& end.printed == Seq::<Seq<char>>::empty()
    &&& match outcome {
        Ok(holds) => (end.machine, end.action) == step_truth(
            MachineView {
                frames: below,
                focus: FocusView::AwaitCompared(test.comparator),
                ..before
            },
            holds,
        ),
        Err(fault) => end.action == ActionView::Abort(fault) && end.machine.focus
            == FocusView::Stopped && end.machine.store == before.store && end.machine.declared
            == before.declared,
    }
}

/// The machine decides a condition by its truth.
///
/// A machine that has the left side of a condition in hand, with the rest
/// of the condition on top of its stack, and is driven with the answers of
/// `arithmetic`, has after `test_transitions` transitions acted on the
/// truth of the condition, or has ended the run with the fault that the
/// truth is.
pub proof fn lemma_condition_decides(arithmetic: Arithmetic, m: MachineView, test: ConditionView)
    requires
        m.focus == FocusView::Expression(test.left),
        m.frames.len() > 0,
        m.frames.last() == FrameView::TestLeft(test.comparator, test.right),
    ensures
        decides(
            m,
            m.frames.drop_last(),
            test,
            truth(arithmetic, m.store, test),
            run(
                arithmetic,
                m,
                EventView::Resume,
                (test_transitions(arithmetic, m.store, test) - 1) as nat,
            ),
        ),
{
    let store = m.store;
    let none = Seq::<Seq<char>>::empty();
    let below = m.frames.drop_last();
    let n_left = transitions(arithmetic, store, test.left);
    lemma_expression_evaluates(arithmetic, m, test.left);
    let mid = run(arithmetic, m, EventView::Resume, (n_left - 1) as nat);
    match value(arithmetic, store, test.left) {
        Ok(left_text) => {
            lemma_run_split(arithmetic, m, EventView::Resume, (n_left - 1) as nat, 1);
            lemma_run_two(arithmetic, mid.machine, EventView::Resume);
            let asked = step(mid.machine, EventView::Resume);
            assert(asked.1 == ActionView::Parse(left_text));
            let taken = run(arithmetic, asked.0, answer(arithmetic, asked.1), 0);
            let at_right = run(arithmetic, m, EventView::Resume, (n_left + 1) as nat);
            assert(at_right.printed =~= none);
            assert(at_right.machine == taken.machine && at_right.action == taken.action);
            match operand(arithmetic, left_text) {
                Ok(left_number) => {
                    let m2 = taken.machine;
                    assert(m2 == MachineView {
                        frames: below.push(FrameView::TestRight(test.comparator, left_number)),
                        focus: FocusView::Expression(test.right),
                        ..m
                    });
                    let n_right = transitions(arithmetic, store, test.right);
                    lemma_expression_evaluates(arithmetic, m2, test.right);
                    let late = run(arithmetic, m2, EventView::Resume, (n_right - 1) as nat);
                    lemma_run_split(
                        arithmetic,
                        m,
                        EventView::Resume,
                        (n_left + 1) as nat,
                        (n_right - 1) as nat,
                    );
                    let behind = run(
                        arithmetic,
                        m,
                        EventView::Resume,
                        (n_left + 1 + n_right) as nat,
                    );
                    assert(behind.printed =~= none);
                    assert(behind == late);
                    match value(arithmetic, store, test.right) {
                        Ok(right_text) => {
                            lemma_run_split(
                                arithmetic,
                                m,
                                EventView::Resume,
                                (n_left + 1 + n_right) as nat,
                                1,
                            );
                            lemma_run_two(arithmetic, late.machine, EventView::Resume);
                            let asked2 = step(late.machine, EventView::Resume);
                            assert(late.machine.frames.last() == FrameView::TestRight(
                                test.comparator,
                                left_number,
                            ));
                            assert(asked2.1 == ActionView::Parse(right_text));
                            let taken2 = run(arithmetic, asked2.0, answer(arithmetic, asked2.1), 0);
                            assert(late.machine.frames.drop_last() =~= below);
                            let sent = run(
                                arithmetic,
                                m,
                                EventView::Resume,
                                (n_left + 1 + n_right + 2) as nat,
                            );
                            assert(sent.printed =~= none);
                            assert(sent.machine == taken2.machine && sent.action
                                == taken2.action);
                            match operand(arithmetic, right_text) {
                                Ok(right_number) => {
                                    lemma_run_split(
                                        arithmetic,
                                        m,
                                        EventView::Resume,
                                        (n_left + 1 + n_right + 2) as nat,
                                        0,
                                    );
                                    assert(taken2.action == ActionView::Compare(
                                        left_number,
                                        right_number,
                                    ));
                                    assert(taken2.machine == MachineView {
                                        frames: below,
                                        focus: FocusView::AwaitCompared(test.comparator),
                                        ..m
                                    });
                                    let end = run(
                                        arithmetic,
                                        m,
                                        EventView::Resume,
                                        (n_left + 1 + n_right + 3) as nat,
                                    );
                                    assert(end.printed =~= none);
                                },
                                Err(_) => {},
                            }
                        },
                        Err(_) => {},
                    }
                },
                Err(_) => {},
            }
        },
        Err(_) => {},
    }
}

/// What running a part of a program comes to.
pub enum Outcome {
    /// It ran to its end: the store then, the lines printed, and the
    /// number of transitions taken.
    Done { store: Map<Seq<char>, Seq<char>>, printed: Seq<Seq<char>>, steps: nat },
    /// It failed: the lines printed up to then, the fault, and the number of
    /// transitions taken.
    Failed { printed: Seq<Seq<char>>, fault: FaultView, steps: nat },
    /// It needs more rounds of its loops than were allowed.
    Unfinished,
}

/// An outcome that comes after `steps` transitions in which `printed` was
/// printed.
pub open spec fn prefixed(printed: Seq<Seq<char>>, steps: nat, rest: Outcome) -> Outcome {
    match rest {
        Outcome::Done { store, printed: more, steps: further } => Outcome::Done {
            store,
            printed: printed + more,
            steps: steps + further,
        },
        Outcome::Failed { printed: more, fault, steps: further } => Outcome::Failed {
            printed: printed + more,
            fault,
            steps: steps + further,
        },
        Outcome::Unfinished => Outcome::Unfinished,
    }
}

/// What a statement comes to, run from `store`.
///
/// `print` prints the value of its expression. A declaration or assignment
/// makes the value of its expression the value of the variable, which must
/// be in the table of declared names. A conditional runs the body of its
/// first clause whose condition holds, or of its `else` clause, or nothing.
/// A loop runs its body for as long as its condition, tested before every
/// round, holds. The first fault ends everything.
///
/// `rounds` bounds the rounds of any one loop, so that what a statement
/// comes to is defined also where a loop never ends.
pub open spec fn run_statement(
    arithmetic: Arithmetic,
    table: Set<Seq<char>>,
    statement: StatementView,
    store: Map<Seq<char>, Seq<char>>,
    rounds: nat,
) -> Outcome
    decreases rounds, statement, 0nat,
{
    match statement {
        StatementView::Print(shown) => match value(arithmetic, store, shown) {
            Ok(text) => Outcome::Done {
                store,
                printed: seq![text],
                steps: transitions(arithmetic, store, shown) + 2,
            },
            Err(fault) => Outcome::Failed {
                printed: Seq::empty(),
                fault,
                steps: transitions(arithmetic, store, shown) + 1,
            },
        },
        StatementView::Let(name, bound) => run_binding(arithmetic, table, name, bound, store),
        StatementView::Assignment(name, bound) => run_binding(
            arithmetic,
            table,
            name,
            bound,
            store,
        ),
        StatementView::If(chain) => prefixed(
            Seq::empty(),
            1,
            run_chain(arithmetic, table, chain, store, rounds),
        ),
        StatementView::While(test, body) => prefixed(
            Seq::empty(),
            1,
            run_loop(arithmetic, table, test, body, store, rounds),
        ),
    }
}

/// What `let name = bound;` and `name = bound;` come to.
pub open spec fn run_binding(
    arithmetic: Arithmetic,
    table: Set<Seq<char>>,
    name: Seq<char>,
    bound: ExpressionView,
    store: Map<Seq<char>, Seq<char>>,
) -> Outcome {
    match value(arithmetic, store, bound) {
        Ok(text) => if table.contains(name) {
            Outcome::Done {
                store: store.insert(name, text),
                printed: Seq::empty(),
                steps: transitions(arithmetic, store, bound) + 2,
            }
        } else {
            Outcome::Failed {
                printed: Seq::empty(),
                fault: FaultView::UnknownTarget(name),
                steps: transitions(arithmetic, store, bound) + 2,
            }
        },
        Err(fault) => Outcome::Failed {
            printed: Seq::empty(),
            fault,
            steps: transitions(arithmetic, store, bound) + 1,
        },
    }
}

/// What a clause of a conditional comes to, with the clauses behind it.
pub open spec fn run_chain(
    arithmetic: Arithmetic,
    table: Set<Seq<char>>,
    chain: IfView,
    store: Map<Seq<char>, Seq<char>>,
    rounds: nat,
) -> Outcome
    decreases rounds, chain, 0nat,
{
    match chain {
        IfView::If(test, body, other) => match truth(arithmetic, store, test) {
            Ok(holds) => if holds {
                prefixed(
                    Seq::empty(),
                    test_transitions(arithmetic, store, test),
                    run_block(arithmetic, table, body, 0, store, rounds),
                )
            } else {
                match other {
                    Some(next) => prefixed(
                        Seq::empty(),
                        test_transitions(arithmetic, store, test),
                        run_chain(arithmetic, table, *next, store, rounds),
                    ),
                    None => Outcome::Done {
                        store,
                        printed: Seq::empty(),
                        steps: test_transitions(arithmetic, store, test),
                    },
                }
            },
            Err(fault) => Outcome::Failed {
                printed: Seq::empty(),
                fault,
                steps: test_transitions(arithmetic, store, test),
            },
        },
        IfView::ElseIf(test, body, other) => match truth(arithmetic, store, test) {
            Ok(holds) => if holds {
                prefixed(
                    Seq::empty(),
                    test_transitions(arithmetic, store, test),
                    run_block(arithmetic, table, body, 0, store, rounds),
                )
            } else {
                match other {
                    Some(next) => prefixed(
                        Seq::empty(),
                        test_transitions(arithmetic, store, test),
                        run_chain(arithmetic, table, *next, store, rounds),
                    ),
                    None => Outcome::Done {
                        store,
                        printed: Seq::empty(),
                        steps: test_transitions(arithmetic, store, test),
                    },
                }
            },
            Err(fault) => Outcome::Failed {
                printed: Seq::empty(),
                fault,
                steps: test_transitions(arithmetic, store, test),
            },
        },
        IfView::Else(body) => run_block(arithmetic, table, body, 0, store, rounds),
    }
}

/// What a loop comes to within `rounds` rounds.
pub open spec fn run_loop(
    arithmetic: Arithmetic,
    table: Set<Seq<char>>,
    test: ConditionView,
    body: Seq<StatementView>,
    store: Map<Seq<char>, Seq<char>>,
    rounds: nat,
) -> Outcome
    decreases rounds, body, body.len() + 1,
{
    let tested = 1 + test_transitions(arithmetic, store, test);
    match truth(arithmetic, store, test) {
        Ok(holds) => if !holds {
            Outcome::Done { store, printed: Seq::empty(), steps: tested }
        } else if rounds == 0 {
            Outcome::Unfinished
        } else {
            match run_block(arithmetic, table, body, 0, store, (rounds - 1) as nat) {
                Outcome::Done { store: changed, printed, steps } => prefixed(
                    printed,
                    tested + steps,
                    run_loop(arithmetic, table, test, body, changed, (rounds - 1) as nat),
                ),
                other => prefixed(Seq::empty(), tested, other),
            }
        },
        Err(fault) => Outcome::Failed { printed: Seq::empty(), fault, steps: tested },
    }
}

/// What the statements of a block come to, from index `from` on, one after
/// the other.
pub open spec fn run_block(
    arithmetic: Arithmetic,
    table: Set<Seq<char>>,
    statements: Seq<StatementView>,
    from: nat,
    store: Map<Seq<char>, Seq<char>>,
    rounds: nat,
) -> Outcome
    decreases rounds, statements, statements.len() - from,
{
    if from >= statements.len() {
        Outcome::Done { store, printed: Seq::empty(), steps: 1 }
    } else {
        match run_statement(arithmetic, table, statements[from as int], store, rounds) {
            Outcome::Done { store: changed, printed, steps } => prefixed(
                printed,
                steps,
                run_block(arithmetic, table, statements, from + 1, changed, rounds),
            ),
            other => other,
        }
    }
}

/// What a program comes to: the declaration check first, and then, if it
/// finds no fault, the statements of the program, run from an empty store.
pub open spec fn run_program(arithmetic: Arithmetic, program: Seq<StatementView>, rounds: nat) -> Outcome {
    let found = resolve(program, Set::empty());
    match found.fault {
        Some(name) => Outcome::Failed {
            printed: Seq::empty(),
            fault: FaultView::UndeclaredAssignment(name),
            steps: 1,
        },
        None => prefixed(
            Seq::empty(),
            1,
            match run_block(arithmetic, found.declared, program, 0, Map::empty(), rounds) {
                Outcome::Done { store, printed, steps } => Outcome::Done {
                    store,
                    printed,
                    steps: steps + 1,
                },
                other => other,
            },
        ),
    }
}

/// Whether the machine `m`, driven with the answers of `arithmetic`,
/// arrives at `outcome`: after the transitions that the outcome counts,
/// the lines of the outcome have been printed and no others, and either
/// the machine has nothing in hand, the stack `frames` and the store of the
/// outcome, or the run has ended with the fault of the outcome.
pub open spec fn arrives(
    arithmetic: Arithmetic,
    m: MachineView,
    outcome: Outcome,
    frames: Seq<FrameView>,
) -> bool {
    match outcome {
        Outcome::Done { store, printed, steps } => steps >= 1 && ({
            let end = run(arithmetic, m, EventView::Resume, (steps - 1) as nat);
            &&& end.machine == MachineView { frames, store, focus: FocusView::Idle, ..m }
            &&& end.printed == printed
            &&& (end.action is Continue || end.action is Print)
        }),
        Outcome::Failed { printed, fault, steps } => steps >= 1 && ({
            let end = run(arithmetic, m, EventView::Resume, (steps - 1) as nat);
            &&& end.action == ActionView::Abort(fault)
            &&& end.printed == printed
            &&& end.machine.focus == FocusView::Stopped
        }),
        Outcome::Unfinished => true,
    }
}

/// A machine that, after some transitions, stands where another run
/// begins, arrives where that run arrives.
proof fn lemma_arrives_later(
    arithmetic: Arithmetic,
    m: MachineView,
    first: nat,
    rest: Outcome,
    frames: Seq<FrameView>,
)
    requires
        ({
            let mid = run(arithmetic, m, EventView::Resume, first);
            &&& (mid.action is Continue || mid.action is Print)
            &&& mid.machine.program == m.program
            &&& mid.machine.declared == m.declared
            &&& arrives(arithmetic, mid.machine, rest, frames)
        }),
    ensures
        arrives(
            arithmetic,
            m,
            prefixed(run(arithmetic, m, EventView::Resume, first).printed, first + 1, rest),
            frames,
        ),
{
    let mid = run(arithmetic, m, EventView::Resume, first);
    match rest {
        Outcome::Done { store, printed, steps } => {
            lemma_run_split(arithmetic, m, EventView::Resume, first, (steps - 1) as nat);
        },
        Outcome::Failed { printed, fault, steps } => {
            lemma_run_split(arithmetic, m, EventView::Resume, first, (steps - 1) as nat);
        },
        Outcome::Unfinished => {},
    }
}

/// Whether the machine has nothing in hand and the statement `statement`
/// next in the block on top of its stack.
pub open spec fn at_statement(m: MachineView, statement: StatementView) -> bool {
    &&& m.focus == FocusView::Idle
    &&& m.frames.len() > 0
    &&& m.frames.last() matches FrameView::Sequence { statements, next }
    &&& next < statements.len()
    &&& statements[next as int] == statement
}

/// The stack of a machine that is at a statement, once that statement is
/// behind it.
pub open spec fn stack_behind(m: MachineView) -> Seq<FrameView> {
    match m.frames.last() {
        FrameView::Sequence { statements, next } => m.frames.drop_last().push(
            FrameView::Sequence { statements, next: next + 1 },
        ),
        _ => m.frames,
    }
}

/// `print` writes the value of its expression.
proof fn lemma_print_runs(arithmetic: Arithmetic, m: MachineView, shown: ExpressionView, rounds: nat)
    requires
        at_statement(m, StatementView::Print(shown)),
    ensures
        arrives(
            arithmetic,
            m,
            run_statement(arithmetic, m.declared, StatementView::Print(shown), m.store, rounds),
            stack_behind(m),
        ),
{
    let count = transitions(arithmetic, m.store, shown);
    let first = step(m, EventView::Resume);
    let m1 = first.0;
    assert(m1 == MachineView {
        frames: stack_behind(m).push(FrameView::Print),
        focus: FocusView::Expression(shown),
        ..m
    });
    lemma_expression_evaluates(arithmetic, m1, shown);
    let mid = run(arithmetic, m1, EventView::Resume, (count - 1) as nat);
    lemma_run_first(arithmetic, m, EventView::Resume, count);
    let so_far = run(arithmetic, m, EventView::Resume, count);
    assert(so_far.printed =~= Seq::<Seq<char>>::empty());
    assert(so_far == mid);
    match value(arithmetic, m.store, shown) {
        Ok(text) => {
            lemma_run_split(arithmetic, m, EventView::Resume, count, 0);
            assert(mid.machine.frames.drop_last() =~= stack_behind(m));
            let end = run(arithmetic, m, EventView::Resume, count + 1);
            assert(end.printed =~= seq![text]);
        },
        Err(_) => {},
    }
}

/// A declaration or assignment stores the value of its expression.
proof fn lemma_binding_runs(
    arithmetic: Arithmetic,
    m: MachineView,
    name: Seq<char>,
    bound: ExpressionView,
)
    requires
        at_statement(m, StatementView::Let(name, bound)) || at_statement(
            m,
            StatementView::Assignment(name, bound),
        ),
    ensures
        arrives(
            arithmetic,
            m,
            run_binding(arithmetic, m.declared, name, bound, m.store),
            stack_behind(m),
        ),
{
    let count = transitions(arithmetic, m.store, bound);
    let first = step(m, EventView::Resume);
    let m1 = first.0;
    assert(m1 == MachineView {
        frames: stack_behind(m).push(FrameView::Store(name)),
        focus: FocusView::Expression(bound),
        ..m
    });
    lemma_expression_evaluates(arithmetic, m1, bound);
    let mid = run(arithmetic, m1, EventView::Resume, (count - 1) as nat);
    lemma_run_first(arithmetic, m, EventView::Resume, count);
    let so_far = run(arithmetic, m, EventView::Resume, count);
    assert(so_far.printed =~= Seq::<Seq<char>>::empty());
    assert(so_far == mid);
    match value(arithmetic, m.store, bound) {
        Ok(text) => {
            lemma_run_split(arithmetic, m, EventView::Resume, count, 0);
            assert(mid.machine.frames.drop_last() =~= stack_behind(m));
            let end = run(arithmetic, m, EventView::Resume, count + 1);
            assert(end.printed =~= Seq::<Seq<char>>::empty());
        },
        Err(_) => {},
    }
}

/// The machine runs a statement as [`run_statement`] says.
///
/// A machine that has nothing in hand and the statement next in the block
/// on top of its stack, driven with the answers of `arithmetic`, arrives at
/// what the statement comes to, with the statement behind it.
pub proof fn lemma_statement_runs(
    arithmetic: Arithmetic,
    m: MachineView,
    statement: StatementView,
    rounds: nat,
)
    requires
        at_statement(m, statement),
    ensures
        arrives(
            arithmetic,
            m,
            run_statement(arithmetic, m.declared, statement, m.store, rounds),
            stack_behind(m),
        ),
    decreases rounds, statement, 0nat,
{
    let behind = stack_behind(m);
    match statement {
        StatementView::Print(shown) => {
            lemma_print_runs(arithmetic, m, shown, rounds);
        },
        StatementView::Let(name, bound) => {
            lemma_binding_runs(arithmetic, m, name, bound);
        },
        StatementView::Assignment(name, bound) => {
            lemma_binding_runs(arithmetic, m, name, bound);
        },
        StatementView::If(chain) => {
            let m1 = step(m, EventView::Resume).0;
            assert(m1 == begin_chain(m, behind, chain).0);
            assert(begin_chain(m1, behind, chain).0 == m1);
            lemma_chain_runs(arithmetic, m1, behind, chain, rounds);
            lemma_arrives_later(
                arithmetic,
                m,
                0,
                run_chain(arithmetic, m.declared, chain, m.store, rounds),
                behind,
            );
        },
        StatementView::While(test, body) => {
            let m1 = step(m, EventView::Resume).0;
            assert(m1 == MachineView {
                frames: behind.push(FrameView::Loop { condition: test, body }),
                focus: FocusView::Idle,
                ..m
            });
            assert(m1.frames.drop_last() =~= behind);
            lemma_loop_runs(arithmetic, m1, test, body, rounds);
            lemma_arrives_later(
                arithmetic,
                m,
                0,
                run_loop(arithmetic, m.declared, test, body, m.store, rounds),
                behind,
            );
        },
    }
}

/// What is common to an `if` and an `elseif` clause: the condition is
/// decided, and the body or the clauses behind it are run.
proof fn lemma_clause_runs(
    arithmetic: Arithmetic,
    m: MachineView,
    below: Seq<FrameView>,
    chain: IfView,
    test: ConditionView,
    body: Seq<StatementView>,
    other: Option<Box<IfView>>,
    rounds: nat,
)
    requires
        chain == IfView::If(test, body, other) || chain == IfView::ElseIf(test, body, other),
        begin_chain(m, below, chain).0 == m,
    ensures
        arrives(
            arithmetic,
            m,
            run_chain(arithmetic, m.declared, chain, m.store, rounds),
            below,
        ),
    decreases rounds, chain, 0nat,
{
    let count = test_transitions(arithmetic, m.store, test);
    let branch = FrameView::Branch { body, other };
    assert(m.frames == below.push(branch).push(FrameView::TestLeft(test.comparator, test.right)));
    assert(m.frames.drop_last() =~= below.push(branch));
    assert(below.push(branch).drop_last() =~= below);
    lemma_transitions_positive(arithmetic, m.store, test.left);
    lemma_condition_decides(arithmetic, m, test);
    let mid = run(arithmetic, m, EventView::Resume, (count - 1) as nat);
    match truth(arithmetic, m.store, test) {
        Ok(holds) => {
            if holds {
                let m2 = mid.machine;
                assert(m2 == MachineView {
                    frames: below.push(FrameView::Sequence { statements: body, next: 0 }),
                    focus: FocusView::Idle,
                    ..m
                });
                assert(m2.frames.drop_last() =~= below);
                lemma_block_runs(arithmetic, m2, body, 0, rounds);
                lemma_arrives_later(
                    arithmetic,
                    m,
                    (count - 1) as nat,
                    run_block(arithmetic, m.declared, body, 0, m.store, rounds),
                    below,
                );
            } else {
                match other {
                    Some(next) => {
                        let m2 = mid.machine;
                        assert(m2 == begin_chain(m, below, *next).0);
                        assert(begin_chain(m2, below, *next).0 == m2);
                        lemma_chain_runs(arithmetic, m2, below, *next, rounds);
                        lemma_arrives_later(
                            arithmetic,
                            m,
                            (count - 1) as nat,
                            run_chain(arithmetic, m.declared, *next, m.store, rounds),
                            below,
                        );
                    },
                    None => {},
                }
            }
        },
        Err(_) => {},
    }
}

/// The machine runs a conditional as [`run_chain`] says.
///
/// A machine in which a clause has just been begun above the stack
/// `below`, driven with the answers of `arithmetic`, arrives at what the
/// clause and the clauses behind it come to, with the stack `below`.
pub proof fn lemma_chain_runs(
    arithmetic: Arithmetic,
    m: MachineView,
    below: Seq<FrameView>,
    chain: IfView,
    rounds: nat,
)
    requires
        begin_chain(m, below, chain).0 == m,
    ensures
        arrives(
            arithmetic,
            m,
            run_chain(arithmetic, m.declared, chain, m.store, rounds),
            below,
        ),
    decreases rounds, chain, 1nat,
{
    match chain {
        IfView::If(test, body, other) => {
            lemma_clause_runs(arithmetic, m, below, chain, test, body, other, rounds);
        },
        IfView::ElseIf(test, body, other) => {
            lemma_clause_runs(arithmetic, m, below, chain, test, body, other, rounds);
        },
        IfView::Else(body) => {
            assert(m.frames.drop_last() =~= below);
            lemma_block_runs(arithmetic, m, body, 0, rounds);
        },
    }
}

/// The machine runs a loop as [`run_loop`] says.
///
/// A machine that has nothing in hand and a loop on top of its stack,
/// driven with the answers of `arithmetic`, arrives at what the loop comes
/// to, with the loop gone from its stack.
pub proof fn lemma_loop_runs(
    arithmetic: Arithmetic,
    m: MachineView,
    test: ConditionView,
    body: Seq<StatementView>,
    rounds: nat,
)
    requires
        m.focus == FocusView::Idle,
        m.frames.len() > 0,
        m.frames.last() == (FrameView::Loop { condition: test, body }),
    ensures
        arrives(
            arithmetic,
            m,
            run_loop(arithmetic, m.declared, test, body, m.store, rounds),
            m.frames.drop_last(),
        ),
    decreases rounds, body, body.len() + 1,
{
    let below = m.frames.drop_last();
    let count = test_transitions(arithmetic, m.store, test);
    let none = Seq::<Seq<char>>::empty();
    let repeat = FrameView::Repeat { condition: test, body };
    lemma_transitions_positive(arithmetic, m.store, test.left);
    // one transition begins the condition
    let m1 = step(m, EventView::Resume).0;
    assert(m1 == MachineView {
        frames: below.push(repeat).push(FrameView::TestLeft(test.comparator, test.right)),
        focus: FocusView::Expression(test.left),
        ..m
    });
    assert(m1.frames.drop_last() =~= below.push(repeat));
    assert(below.push(repeat).drop_last() =~= below);
    lemma_condition_decides(arithmetic, m1, test);
    lemma_run_first(arithmetic, m, EventView::Resume, count);
    let decided = run(arithmetic, m, EventView::Resume, count);
    assert(decided.printed =~= none);
    assert(decided.machine == run(
        arithmetic,
        m1,
        EventView::Resume,
        (count - 1) as nat,
    ).machine);
    match truth(arithmetic, m.store, test) {
        Ok(holds) => {
            if holds && rounds > 0 {
                let again = FrameView::Loop { condition: test, body };
                let m2 = decided.machine;
                assert(m2 == MachineView {
                    frames: below.push(again).push(
                        FrameView::Sequence { statements: body, next: 0 },
                    ),
                    focus: FocusView::Idle,
                    ..m
                });
                assert(m2.frames.drop_last() =~= below.push(again));
                let inner = run_block(
                    arithmetic,
                    m.declared,
                    body,
                    0,
                    m.store,
                    (rounds - 1) as nat,
                );
                lemma_block_runs(arithmetic, m2, body, 0, (rounds - 1) as nat);
                match inner {
                    Outcome::Done { store: changed, printed, steps } => {
                        // the body has run; the loop is on top again
                        lemma_arrives_later(arithmetic, m, count, inner, below.push(again));
                        let round = (count + steps) as nat;
                        let m3 = run(arithmetic, m, EventView::Resume, round).machine;
                        assert(none + printed =~= printed);
                        assert(m3 == MachineView {
                            frames: below.push(again),
                            store: changed,
                            focus: FocusView::Idle,
                            ..m
                        });
                        assert(m3.frames.drop_last() =~= below);
                        let rest = run_loop(
                            arithmetic,
                            m.declared,
                            test,
                            body,
                            changed,
                            (rounds - 1) as nat,
                        );
                        lemma_loop_runs(arithmetic, m3, test, body, (rounds - 1) as nat);
                        lemma_arrives_later(arithmetic, m, round, rest, below);
                    },
                    _ => {
                        lemma_arrives_later(arithmetic, m, count, inner, below);
                    },
                }
            }
        },
        Err(_) => {},
    }
}

/// The machine runs a block as [`run_block`] says.
///
/// A machine that has nothing in hand and a block on top of its stack,
/// driven with the answers of `arithmetic`, arrives at what the statements
/// of the block that are still to run come to, with the block gone from its
/// stack.
pub proof fn lemma_block_runs(
    arithmetic: Arithmetic,
    m: MachineView,
    statements: Seq<StatementView>,
    from: nat,
    rounds: nat,
)
    requires
        m.focus == FocusView::Idle,
        m.frames.len() > 0,
        m.frames.last() == (FrameView::Sequence { statements, next: from }),
    ensures
        arrives(
            arithmetic,
            m,
            run_block(arithmetic, m.declared, statements, from, m.store, rounds),
            m.frames.drop_last(),
        ),
    decreases rounds, statements, statements.len() - from,
{
    let below = m.frames.drop_last();
    if from < statements.len() {
        let first = run_statement(
            arithmetic,
            m.declared,
            statements[from as int],
            m.store,
            rounds,
        );
        lemma_statement_runs(arithmetic, m, statements[from as int], rounds);
        match first {
            Outcome::Done { store: changed, printed, steps } => {
                let m1 = run(arithmetic, m, EventView::Resume, (steps - 1) as nat).machine;
                assert(m1.frames.drop_last() =~= below);
                lemma_block_runs(arithmetic, m1, statements, from + 1, rounds);
                lemma_arrives_later(
                    arithmetic,
                    m,
                    (steps - 1) as nat,
                    run_block(arithmetic, m.declared, statements, from + 1, changed, rounds),
                    below,
                );
            },
            _ => {},
        }
    }
}

/// The machine runs a program as [`run_program`] says.
///
/// The machine for a program, driven from its first transition with the
/// answers of `arithmetic`, prints exactly the lines that the program
/// prints, in their order, and then either finishes, with every variable at
/// the value that the program leaves it with, or ends the run with the
/// fault that the program fails with. This holds for every bound on the
/// rounds of loops within which the program comes to an end.
pub proof fn lemma_program_runs(arithmetic: Arithmetic, program: Seq<StatementView>, rounds: nat)
    ensures
        match run_program(arithmetic, program, rounds) {
            Outcome::Done { store, printed, steps } => steps >= 1 && ({
                let end = run(arithmetic, initial(program), EventView::Resume, (steps - 1) as nat);
                &&& end.action == ActionView::Finish
                &&& end.printed == printed
                &&& end.machine.store == store
                &&& end.machine.focus == FocusView::Stopped
            }),
            Outcome::Failed { printed, fault, steps } => steps >= 1 && ({
                let end = run(arithmetic, initial(program), EventView::Resume, (steps - 1) as nat);
                &&& end.action == ActionView::Abort(fault)
                &&& end.printed == printed
                &&& end.machine.focus == FocusView::Stopped
            }),
            Outcome::Unfinished => true,
        },
{
    let m = initial(program);
    let none = Seq::<Seq<char>>::empty();
    let found = resolve(program, Set::empty());
    if found.fault is None {
        let m1 = step(m, EventView::Resume).0;
        assert(m.frames =~= Seq::<FrameView>::empty());
        let bottom = FrameView::Sequence { statements: program, next: 0 };
        assert(m1 == MachineView {
            declared: found.declared,
            frames: Seq::<FrameView>::empty().push(bottom),
            focus: FocusView::Idle,
            ..m
        });
        assert(m1.frames.drop_last() =~= Seq::<FrameView>::empty());
        let inner = run_block(arithmetic, found.declared, program, 0, Map::empty(), rounds);
        lemma_block_runs(arithmetic, m1, program, 0, rounds);
        match inner {
            Outcome::Done { store, printed, steps } => {
                // the block is done and the stack is empty: one more
                // transition finishes
                lemma_run_first(arithmetic, m, EventView::Resume, steps);
                let done = run(arithmetic, m, EventView::Resume, steps);
                assert(done.printed =~= printed);
                lemma_run_split(arithmetic, m, EventView::Resume, steps, 0);
                let end = run(arithmetic, m, EventView::Resume, steps + 1);
                assert(end.printed =~= printed);
                assert(none + printed =~= printed);
            },
            Outcome::Failed { printed, fault, steps } => {
                lemma_run_first(arithmetic, m, EventView::Resume, steps);
                let end = run(arithmetic, m, EventView::Resume, steps);
                assert(end.printed =~= printed);
                assert(none + printed =~= printed);
            },
            Outcome::Unfinished => {},
        }
    }
}

/// Whether a fault lies with the program: its declarations, its use of
/// variables, or its operands.
pub open spec fn programs_fault(fault: FaultView) -> bool {
    fault is UndeclaredAssignment || fault is UnassignedVariable || fault is NotNumeric
}

/// A driver's answer is the answer that the machine has asked for.
proof fn lemma_answer_expected(arithmetic: Arithmetic, m: MachineView, event: EventView)
    requires
        machine_wf(m),
        expected(m.focus, event),
    ensures
        expected(step(m, event).0.focus, answer(arithmetic, step(m, event).1)),
{
    if m.frames.len() > 0 {
        let top = m.frames.last();
        let below = m.frames.drop_last();
        match m.focus {
            FocusView::Idle => {
                match top {
                    FrameView::Sequence { statements, next } => {
                        if next < statements.len() {
                            match statements[next as int] {
                                StatementView::If(chain) => {
                                    match chain {
                                        IfView::If(_, _, _) => {},
                                        IfView::ElseIf(_, _, _) => {},
                                        IfView::Else(_) => {},
                                    }
                                },
                                _ => {},
                            }
                        }
                    },
                    _ => {},
                }
            },
            FocusView::AwaitCompared(_) => {
                match top {
                    FrameView::Branch { body, other } => {
                        match other {
                            Some(next) => {
                                match *next {
                                    IfView::If(_, _, _) => {},
                                    IfView::ElseIf(_, _, _) => {},
                                    IfView::Else(_) => {},
                                }
                            },
                            None => {},
                        }
                    },
                    _ => {},
                }
            },
            _ => {},
        }
    }
}

/// A run that is driven as the machine asks fails only where the program
/// is at fault.
pub proof fn lemma_run_faults(
    arithmetic: Arithmetic,
    m: MachineView,
    event: EventView,
    further: nat,
)
    requires
        machine_wf(m),
        expected(m.focus, event),
    ensures
        run(arithmetic, m, event, further).action matches ActionView::Abort(fault)
            ==> programs_fault(fault),
    decreases further,
{
    lemma_faults_are_the_programs(m, event);
    if further > 0 {
        let first = step(m, event);
        lemma_step_wf(m, event);
        lemma_answer_expected(arithmetic, m, event);
        lemma_run_faults(arithmetic, first.0, answer(arithmetic, first.1), (further - 1) as nat);
    }
}

/// A program fails only by its own fault.
///
/// What a program comes to, if it is a failure, is the failure of its
/// declaration check, the use of a variable that has no value, or an
/// operand that is no number. Once the declaration check has passed, the
/// target of every declaration and assignment that runs is in the table.
pub proof fn lemma_program_faults(arithmetic: Arithmetic, program: Seq<StatementView>, rounds: nat)
    ensures
        run_program(arithmetic, program, rounds) matches Outcome::Failed { fault, .. }
            ==> programs_fault(fault),
{
    match run_program(arithmetic, program, rounds) {
        Outcome::Failed { printed, fault, steps } => {
            lemma_program_runs(arithmetic, program, rounds);
            let m = initial(program);
            assert(m.frames =~= Seq::<FrameView>::empty());
            lemma_run_faults(arithmetic, m, EventView::Resume, (steps - 1) as nat);
        },
        _ => {},
    }
}

/// A program in which every assignment is to a name declared earlier runs
/// without a fault of its declarations: if it fails, it has read a
/// variable that had no value yet, or has handed an operator or comparator
/// a text that is no number.
pub proof fn lemma_declared_program_faults(
    arithmetic: Arithmetic,
    program: Seq<StatementView>,
    rounds: nat,
)
    requires
        all_declared(
            program_targets(program),
            program_targets(program).len() as int,
            Set::empty(),
        ),
    ensures
        run_program(arithmetic, program, rounds) matches Outcome::Failed { fault, .. } ==> fault
            is UnassignedVariable || fault is NotNumeric,
{
    lemma_declared_then_assigned_resolves(program, Set::empty());
    lemma_program_faults(arithmetic, program, rounds);
    match run_program(arithmetic, program, rounds) {
        Outcome::Failed { printed, fault, steps } => {
            if fault is UndeclaredAssignment {
                let inner = run_block(
                    arithmetic,
                    resolve(program, Set::empty()).declared,
                    program,
                    0,
                    Map::empty(),
                    rounds,
                );
                lemma_block_faults(
                    arithmetic,
                    resolve(program, Set::empty()).declared,
                    program,
                    0,
                    Map::empty(),
                    rounds,
                );
            }
        },
        _ => {},
    }
}

/// No statement fails with a fault of the declaration check: that check
/// runs before the first statement.
proof fn lemma_statement_faults(
    arithmetic: Arithmetic,
    table: Set<Seq<char>>,
    statement: StatementView,
    store: Map<Seq<char>, Seq<char>>,
    rounds: nat,
)
    ensures
        run_statement(arithmetic, table, statement, store, rounds) matches Outcome::Failed {
            fault,
            ..
        } ==> !(fault is UndeclaredAssignment),
    decreases rounds, statement, 0nat,
{
    match statement {
        StatementView::Print(shown) => {
            lemma_value_faults(arithmetic, store, shown);
        },
        StatementView::Let(_, bound) => {
            lemma_value_faults(arithmetic, store, bound);
        },
        StatementView::Assignment(_, bound) => {
            lemma_value_faults(arithmetic, store, bound);
        },
        StatementView::If(chain) => {
            lemma_chain_faults(arithmetic, table, chain, store, rounds);
        },
        StatementView::While(test, body) => {
            lemma_loop_faults(arithmetic, table, test, body, store, rounds);
        },
    }
}

proof fn lemma_value_faults(
    arithmetic: Arithmetic,
    store: Map<Seq<char>, Seq<char>>,
    expression: ExpressionView,
)
    ensures
        value(arithmetic, store, expression) matches Err(fault) ==> fault is UnassignedVariable
            || fault is NotNumeric,
    decreases expression,
{
    match expression {
        ExpressionView::UnaryOp(_, inner) => {
            lemma_value_faults(arithmetic, store, *inner);
        },
        ExpressionView::BinaryOp(left, _, right) => {
            lemma_value_faults(arithmetic, store, *left);
            lemma_value_faults(arithmetic, store, *right);
        },
        _ => {},
    }
}

proof fn lemma_truth_faults(
    arithmetic: Arithmetic,
    store: Map<Seq<char>, Seq<char>>,
    test: ConditionView,
)
    ensures
        truth(arithmetic, store, test) matches Err(fault) ==> fault is UnassignedVariable
            || fault is NotNumeric,
{
    lemma_value_faults(arithmetic, store, test.left);
    lemma_value_faults(arithmetic, store, test.right);
}

proof fn lemma_chain_faults(
    arithmetic: Arithmetic,
    table: Set<Seq<char>>,
    chain: IfView,
    store: Map<Seq<char>, Seq<char>>,
    rounds: nat,
)
    ensures
        run_chain(arithmetic, table, chain, store, rounds) matches Outcome::Failed { fault, .. }
            ==> !(fault is UndeclaredAssignment),
    decreases rounds, chain, 0nat,
{
    match chain {
        IfView::If(test, body, other) => {
            lemma_truth_faults(arithmetic, store, test);
            lemma_block_faults(arithmetic, table, body, 0, store, rounds);
            match other {
                Some(next) => {
                    lemma_chain_faults(arithmetic, table, *next, store, rounds);
                },
                None => {},
            }
        },
        IfView::ElseIf(test, body, other) => {
            lemma_truth_faults(arithmetic, store, test);
            lemma_block_faults(arithmetic, table, body, 0, store, rounds);
            match other {
                Some(next) => {
                    lemma_chain_faults(arithmetic, table, *next, store, rounds);
                },
                None => {},
            }
        },
        IfView::Else(body) => {
            lemma_block_faults(arithmetic, table, body, 0, store, rounds);
        },
    }
}

proof fn lemma_loop_faults(
    arithmetic: Arithmetic,
    table: Set<Seq<char>>,
    test: ConditionView,
    body: Seq<StatementView>,
    store: Map<Seq<char>, Seq<char>>,
    rounds: nat,
)
    ensures
        run_loop(arithmetic, table, test, body, store, rounds) matches Outcome::Failed {
            fault,
            ..
        } ==> !(fault is UndeclaredAssignment),
    decreases rounds, body, body.len() + 1,
{
    lemma_truth_faults(arithmetic, store, test);
    if rounds > 0 {
        lemma_block_faults(arithmetic, table, body, 0, store, (rounds - 1) as nat);
        match run_block(arithmetic, table, body, 0, store, (rounds - 1) as nat) {
            Outcome::Done { store: changed, printed, steps } => {
                lemma_loop_faults(arithmetic, table, test, body, changed, (rounds - 1) as nat);
            },
            _ => {},
        }
    }
}

proof fn lemma_block_faults(
    arithmetic: Arithmetic,
    table: Set<Seq<char>>,
    statements: Seq<StatementView>,
    from: nat,
    store: Map<Seq<char>, Seq<char>>,
    rounds: nat,
)
    ensures
        run_block(arithmetic, table, statements, from, store, rounds) matches Outcome::Failed {
            fault,
            ..
        } ==> !(fault is UndeclaredAssignment),
    decreases rounds, statements, statements.len() - from,
{
    if from < statements.len() {
        lemma_statement_faults(arithmetic, table, statements[from as int], store, rounds);
        match run_statement(arithmetic, table, statements[from as int], store, rounds) {
            Outcome::Done { store: changed, printed, steps } => {
                lemma_block_faults(arithmetic, table, statements, from + 1, changed, rounds);
            },
            _ => {},
        }
    }
}

proof fn lemma_statement_rounds(
    arithmetic: Arithmetic,
    table: Set<Seq<char>>,
    statement: StatementView,
    store: Map<Seq<char>, Seq<char>>,
    rounds: nat,
    more: nat,
)
    requires
        rounds <= more,
        !(run_statement(arithmetic, table, statement, store, rounds) is Unfinished),
    ensures
        run_statement(arithmetic, table, statement, store, more) == run_statement(
            arithmetic,
            table,
            statement,
            store,
            rounds,
        ),
    decreases rounds, statement, 0nat,
{
    match statement {
        StatementView::If(chain) => {
            lemma_chain_rounds(arithmetic, table, chain, store, rounds, more);
        },
        StatementView::While(test, body) => {
            lemma_loop_rounds(arithmetic, table, test, body, store, rounds, more);
        },
        _ => {},
    }
}

proof fn lemma_chain_rounds(
    arithmetic: Arithmetic,
    table: Set<Seq<char>>,
    chain: IfView,
    store: Map<Seq<char>, Seq<char>>,
    rounds: nat,
    more: nat,
)
    requires
        rounds <= more,
        !(run_chain(arithmetic, table, chain, store, rounds) is Unfinished),
    ensures
        run_chain(arithmetic, table, chain, store, more) == run_chain(
            arithmetic,
            table,
            chain,
            store,
            rounds,
        ),
    decreases rounds, chain, 0nat,
{
    match chain {
        IfView::If(test, body, other) => {
            match truth(arithmetic, store, test) {
                Ok(holds) => {
                    if holds {
                        lemma_block_rounds(arithmetic, table, body, 0, store, rounds, more);
                    } else {
                        match other {
                            Some(next) => {
                                lemma_chain_rounds(arithmetic, table, *next, store, rounds, more);
                            },
                            None => {},
                        }
                    }
                },
                Err(_) => {},
            }
        },
        IfView::ElseIf(test, body, other) => {
            match truth(arithmetic, store, test) {
                Ok(holds) => {
                    if holds {
                        lemma_block_rounds(arithmetic, table, body, 0, store, rounds, more);
                    } else {
                        match other {
                            Some(next) => {
                                lemma_chain_rounds(arithmetic, table, *next, store, rounds, more);
                            },
                            None => {},
                        }
                    }
                },
                Err(_) => {},
            }
        },
        IfView::Else(body) => {
            lemma_block_rounds(arithmetic, table, body, 0, store, rounds, more);
        },
    }
}

proof fn lemma_loop_rounds(
    arithmetic: Arithmetic,
    table: Set<Seq<char>>,
    test: ConditionView,
    body: Seq<StatementView>,
    store: Map<Seq<char>, Seq<char>>,
    rounds: nat,
    more: nat,
)
    requires
        rounds <= more,
        !(run_loop(arithmetic, table, test, body, store, rounds) is Unfinished),
    ensures
        run_loop(arithmetic, table, test, body, store, more) == run_loop(
            arithmetic,
            table,
            test,
            body,
            store,
            rounds,
        ),
    decreases rounds, body, body.len() + 1,
{
    match truth(arithmetic, store, test) {
        Ok(holds) => {
            if holds {
                let fewer = (rounds - 1) as nat;
                let further = (more - 1) as nat;
                lemma_block_rounds(arithmetic, table, body, 0, store, fewer, further);
                match run_block(arithmetic, table, body, 0, store, fewer) {
                    Outcome::Done { store: changed, printed, steps } => {
                        lemma_loop_rounds(arithmetic, table, test, body, changed, fewer, further);
                    },
                    _ => {},
                }
            }
        },
        Err(_) => {},
    }
}

proof fn lemma_block_rounds(
    arithmetic: Arithmetic,
    table: Set<Seq<char>>,
    statements: Seq<StatementView>,
    from: nat,
    store: Map<Seq<char>, Seq<char>>,
    rounds: nat,
    more: nat,
)
    requires
        rounds <= more,
        !(run_block(arithmetic, table, statements, from, store, rounds) is Unfinished),
    ensures
        run_block(arithmetic, table, statements, from, store, more) == run_block(
            arithmetic,
            table,
            statements,
            from,
            store,
            rounds,
        ),
    decreases rounds, statements, statements.len() - from,
{
    if from < statements.len() {
        lemma_statement_rounds(arithmetic, table, statements[from as int], store, rounds, more);
        match run_statement(arithmetic, table, statements[from as int], store, rounds) {
            Outcome::Done { store: changed, printed, steps } => {
                lemma_block_rounds(arithmetic, table, statements, from + 1, changed, rounds, more);
            },
            _ => {},
        }
    }
}

/// What a program comes to does not depend on the bound: a program that
/// comes to an end within some number of rounds comes to the same end
/// within any greater number.
pub proof fn lemma_rounds_suffice(
    arithmetic: Arithmetic,
    program: Seq<StatementView>,
    rounds: nat,
    more: nat,
)
    requires
        rounds <= more,
        !(run_program(arithmetic, program, rounds) is Unfinished),
    ensures
        run_program(arithmetic, program, more) == run_program(arithmetic, program, rounds),
{
    let found = resolve(program, Set::empty());
    if found.fault is None {
        lemma_block_rounds(arithmetic, found.declared, program, 0, Map::empty(), rounds, more);
    }
}

} // verus!
