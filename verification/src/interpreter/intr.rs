//! The evaluator: a machine that runs a program one transition at a time.
//!
//! Two things a program needs are not done here: writing a line of output,
//! and arithmetic on numbers. The machine asks for them. Each call of
//! [`Interpreter::interpret`] takes the answer to what was asked last and
//! returns what is to be done next; whoever drives the machine performs it
//! and calls again. All decisions are taken here: what is evaluated in which
//! order, which branch is taken, when a loop ends, and when a run fails.
//!
//! Values are texts. A text becomes a number only when an operator or a
//! comparator needs one, and the result of an operator is a text again.

use vstd::prelude::*;
use crate::interpreter::ast::clause_view;
use crate::interpreter::ast::AbstractSyntaxTree;
use crate::interpreter::ast::BinaryOp;
use crate::interpreter::ast::Block;
use crate::interpreter::ast::Comparator;
use crate::interpreter::ast::Condition;
use crate::interpreter::ast::ConditionView;
use crate::interpreter::ast::Expression;
use crate::interpreter::ast::ExpressionView;
use crate::interpreter::ast::Ident;
use crate::interpreter::ast::IfStatement;
use crate::interpreter::ast::IfView;
use crate::interpreter::ast::Literal;
use crate::interpreter::ast::LiteralView;
use crate::interpreter::ast::Operator;
use crate::interpreter::ast::Statement;
use crate::interpreter::ast::StatementView;
use crate::interpreter::scope::block_covered;
use crate::interpreter::scope::chain_covered;
use crate::interpreter::scope::lemma_resolved_is_covered;
use crate::interpreter::scope::statement_covered;
use crate::interpreter::store::Store;
use crate::interpreter::symbol::resolve;
use crate::interpreter::symbol::ResolveError;
use crate::interpreter::symbol::SymbolTable;

verus! {

/// A number, held as the bits of its single-precision encoding.
#[derive(Debug, PartialEq, Eq, Clone, Copy, Structural)]
pub struct Number {
    pub bits: u32,
}

/// How two numbers stand to each other. Two numbers of which one is not a
/// number at all are unordered.
#[derive(Debug, PartialEq, Eq, Clone, Copy, Structural)]
pub enum Relation {
    Less,
    Equal,
    Greater,
    Unordered,
}

/// Whether the comparator holds between a left and a right number that
/// stand in `relation`.
pub open spec fn comparator_holds(comparator: Comparator, relation: Relation) -> bool {
    match comparator {
        Comparator::Equal => relation == Relation::Equal,
        Comparator::NotEqual => relation != Relation::Equal,
        Comparator::GreaterThan => relation == Relation::Greater,
        Comparator::GreaterThanOrEqual => relation == Relation::Greater || relation
            == Relation::Equal,
        Comparator::LessThan => relation == Relation::Less,
        Comparator::LessThanOrEqual => relation == Relation::Less || relation == Relation::Equal,
    }
}

/// The six comparators agree with one another.
///
/// Of two numbers that are ordered, exactly one of `<`, `==` and `>` holds.
/// `<=` holds where `<` or `==` does, and `>=` where `>` or `==` does; so
/// `<` and `>=` exclude each other, and so do `>` and `<=`. `!=` holds
/// exactly where `==` does not, also between numbers that are not ordered,
/// and is then the only comparator that holds.
pub proof fn lemma_comparators_agree(relation: Relation)
    ensures
        comparator_holds(Comparator::NotEqual, relation) == !comparator_holds(
            Comparator::Equal,
            relation,
        ),
        comparator_holds(Comparator::LessThanOrEqual, relation) == (comparator_holds(
            Comparator::LessThan,
            relation,
        ) || comparator_holds(Comparator::Equal, relation)),
        comparator_holds(Comparator::GreaterThanOrEqual, relation) == (comparator_holds(
            Comparator::GreaterThan,
            relation,
        ) || comparator_holds(Comparator::Equal, relation)),
        !(comparator_holds(Comparator::LessThan, relation) && comparator_holds(
            Comparator::Equal,
            relation,
        )),
        !(comparator_holds(Comparator::LessThan, relation) && comparator_holds(
            Comparator::GreaterThan,
            relation,
        )),
        !(comparator_holds(Comparator::Equal, relation) && comparator_holds(
            Comparator::GreaterThan,
            relation,
        )),
        relation != Relation::Unordered ==> {
            &&& comparator_holds(Comparator::LessThan, relation) || comparator_holds(
                Comparator::Equal,
                relation,
            ) || comparator_holds(Comparator::GreaterThan, relation)
            &&& comparator_holds(Comparator::LessThan, relation) == !comparator_holds(
                Comparator::GreaterThanOrEqual,
                relation,
            )
            &&& comparator_holds(Comparator::GreaterThan, relation) == !comparator_holds(
                Comparator::LessThanOrEqual,
                relation,
            )
        },
        relation == Relation::Unordered ==> forall|comparator: Comparator|
            #[trigger] comparator_holds(comparator, relation) == (comparator
                == Comparator::NotEqual),
{
}

impl Comparator {
    /// Decides the comparator for two numbers that stand in `relation`.
    pub fn holds(&self, relation: Relation) -> (truth: bool)
        ensures
            truth == comparator_holds(*self, relation),
    {
        match self {
            Comparator::Equal => relation == Relation::Equal,
            Comparator::NotEqual => relation != Relation::Equal,
            Comparator::GreaterThan => relation == Relation::Greater,
            Comparator::GreaterThanOrEqual => relation == Relation::Greater || relation
                == Relation::Equal,
            Comparator::LessThan => relation == Relation::Less,
            Comparator::LessThanOrEqual => relation == Relation::Less || relation
                == Relation::Equal,
        }
    }
}

/// Why a run ends before the program does.
#[derive(Debug)]
pub enum Fault {
    /// The declaration check found an assignment to a name that no earlier
    /// statement declares. No statement has run.
    UndeclaredAssignment(String),
    /// An expression names a variable that has no value yet.
    UnassignedVariable(String),
    /// The target of a declaration or assignment is not in the table of
    /// declared names. The machine looks the target up before every write;
    /// in a run of the program that the declaration check has passed the
    /// target is always found (see [`lemma_faults_are_the_programs`]).
    UnknownTarget(String),
    /// An operator or comparator was given this text, which is no number.
    NotNumeric(String),
    /// The machine was handed an answer to something it had not asked.
    UnexpectedEvent,
}

/// What a fault is, as plain values.
pub enum FaultView {
    UndeclaredAssignment(Seq<char>),
    UnassignedVariable(Seq<char>),
    UnknownTarget(Seq<char>),
    NotNumeric(Seq<char>),
    UnexpectedEvent,
}

impl View for Fault {
    type V = FaultView;

    open spec fn view(&self) -> FaultView {
        match self {
            Fault::UndeclaredAssignment(name) => FaultView::UndeclaredAssignment(name@),
            Fault::UnassignedVariable(name) => FaultView::UnassignedVariable(name@),
            Fault::UnknownTarget(name) => FaultView::UnknownTarget(name@),
            Fault::NotNumeric(text) => FaultView::NotNumeric(text@),
            Fault::UnexpectedEvent => FaultView::UnexpectedEvent,
        }
    }
}

/// What the machine is handed: the answer to the action it returned last.
#[derive(Debug)]
pub enum Event {
    /// The last action asked for no answer. This also starts a run.
    Resume,
    /// The number that the text of [`Action::Parse`] denotes, if it denotes
    /// one.
    Parsed(Option<Number>),
    /// The result of [`Action::Compute`], written as a text.
    Computed(String),
    /// How the two numbers of [`Action::Compare`] stand to each other.
    Compared(Relation),
}

/// What an event is, as plain values.
pub enum EventView {
    Resume,
    Parsed(Option<Number>),
    Computed(Seq<char>),
    Compared(Relation),
}

impl View for Event {
    type V = EventView;

    open spec fn view(&self) -> EventView {
        match self {
            Event::Resume => EventView::Resume,
            Event::Parsed(number) => EventView::Parsed(*number),
            Event::Computed(text) => EventView::Computed(text@),
            Event::Compared(relation) => EventView::Compared(*relation),
        }
    }
}

/// What the machine wants done before it is called again.
#[derive(Debug)]
pub enum Action {
    /// Nothing; answer with [`Event::Resume`].
    Continue,
    /// Write this text as one line of output; answer with
    /// [`Event::Resume`].
    Print(String),
    /// Read this text as a number; answer with [`Event::Parsed`].
    Parse(String),
    /// Apply the operator to the two numbers, left and right, and write the
    /// result as a text; answer with [`Event::Computed`].
    Compute(Operator, Number, Number),
    /// Compare the two numbers, left and right; answer with
    /// [`Event::Compared`].
    Compare(Number, Number),
    /// The program has run to its end.
    Finish,
    /// The run has failed.
    Abort(Fault),
}

/// What an action is, as plain values.
pub enum ActionView {
    Continue,
    Print(Seq<char>),
    Parse(Seq<char>),
    Compute(Operator, Number, Number),
    Compare(Number, Number),
    Finish,
    Abort(FaultView),
}

impl View for Action {
    type V = ActionView;

    open spec fn view(&self) -> ActionView {
        match self {
            Action::Continue => ActionView::Continue,
            Action::Print(text) => ActionView::Print(text@),
            Action::Parse(text) => ActionView::Parse(text@),
            Action::Compute(operator, left, right) => ActionView::Compute(*operator, *left, *right),
            Action::Compare(left, right) => ActionView::Compare(*left, *right),
            Action::Finish => ActionView::Finish,
            Action::Abort(fault) => ActionView::Abort(fault@),
        }
    }
}

/// One entry of the machine's stack: something that is still to be done
/// once what lies above it is done.
pub enum FrameView {
    /// Run the statements of a block from index `next` on.
    Sequence { statements: Seq<StatementView>, next: nat },
    /// Test the condition of a loop.
    Loop { condition: ConditionView, body: Seq<StatementView> },
    /// Take the truth of a loop's condition: run the body and test again,
    /// or leave the loop.
    Repeat { condition: ConditionView, body: Seq<StatementView> },
    /// Take the truth of a clause's condition: run the body, or turn to the
    /// clauses behind it.
    Branch { body: Seq<StatementView>, other: Option<Box<IfView>> },
    /// Take a text and ask for it to be written out.
    Print,
    /// Take a text and make it the value of a variable.
    Store(Seq<char>),
    /// Take the operand of a unary operation.
    Sign,
    /// Take the left operand of a binary operation; the right operand is
    /// still to be evaluated.
    Left(Operator, ExpressionView),
    /// Take the right operand of a binary operation whose left operand is
    /// this number.
    Right(Operator, Number),
    /// Take the left side of a condition; the right side is still to be
    /// evaluated.
    TestLeft(Comparator, ExpressionView),
    /// Take the right side of a condition whose left side is this number.
    TestRight(Comparator, Number),
}

/// What the machine has in hand between two transitions.
pub enum FocusView {
    /// The run has not begun.
    Fresh,
    /// Nothing: the top of the stack says what to do.
    Idle,
    /// An expression to evaluate.
    Expression(ExpressionView),
    /// A text to hand to the top of the stack.
    Text(Seq<char>),
    /// The text that was sent out to be read as a number.
    AwaitParsed(Seq<char>),
    /// Nothing, while an operation is computed outside.
    AwaitComputed,
    /// The comparator to decide, while two numbers are compared outside.
    AwaitCompared(Comparator),
    /// The run is over.
    Stopped,
}

/// The machine, as plain values.
pub struct MachineView {
    pub program: Seq<StatementView>,
    pub declared: Set<Seq<char>>,
    pub store: Map<Seq<char>, Seq<char>>,
    pub frames: Seq<FrameView>,
    pub focus: FocusView,
}

/// The machine before its run, for a given program.
pub open spec fn initial(program: Seq<StatementView>) -> MachineView {
    MachineView {
        program,
        declared: Set::empty(),
        store: Map::empty(),
        frames: Seq::empty(),
        focus: FocusView::Fresh,
    }
}

/// The run ends here with `action`.
pub open spec fn halt(m: MachineView, action: ActionView) -> (MachineView, ActionView) {
    (MachineView { focus: FocusView::Stopped, ..m }, action)
}

/// The run goes on with this stack and focus.
pub open spec fn proceed(m: MachineView, frames: Seq<FrameView>, focus: FocusView) -> (
    MachineView,
    ActionView,
) {
    (MachineView { frames, focus, ..m }, ActionView::Continue)
}

/// Begins a condition above `frames`: its left side is evaluated first.
pub open spec fn begin_condition(m: MachineView, frames: Seq<FrameView>, test: ConditionView) -> (
    MachineView,
    ActionView,
) {
    proceed(
        m,
        frames.push(FrameView::TestLeft(test.comparator, test.right)),
        FocusView::Expression(test.left),
    )
}

/// Begins a clause of a conditional above `frames`: the condition of an
/// `if` or `elseif` clause is tested, the body of an `else` clause is run.
pub open spec fn begin_chain(m: MachineView, frames: Seq<FrameView>, chain: IfView) -> (
    MachineView,
    ActionView,
) {
    match chain {
        IfView::If(test, body, other) => begin_condition(
            m,
            frames.push(FrameView::Branch { body, other }),
            test,
        ),
        IfView::ElseIf(test, body, other) => begin_condition(
            m,
            frames.push(FrameView::Branch { body, other }),
            test,
        ),
        IfView::Else(body) => proceed(
            m,
            frames.push(FrameView::Sequence { statements: body, next: 0 }),
            FocusView::Idle,
        ),
    }
}

/// Begins a statement above `frames`.
pub open spec fn begin_statement(
    m: MachineView,
    frames: Seq<FrameView>,
    statement: StatementView,
) -> (MachineView, ActionView) {
    match statement {
        StatementView::Print(value) => proceed(
            m,
            frames.push(FrameView::Print),
            FocusView::Expression(value),
        ),
        StatementView::Let(name, value) => proceed(
            m,
            frames.push(FrameView::Store(name)),
            FocusView::Expression(value),
        ),
        StatementView::Assignment(name, value) => proceed(
            m,
            frames.push(FrameView::Store(name)),
            FocusView::Expression(value),
        ),
        StatementView::If(chain) => begin_chain(m, frames, chain),
        StatementView::While(condition, body) => proceed(
            m,
            frames.push(FrameView::Loop { condition, body }),
            FocusView::Idle,
        ),
    }
}

/// With nothing in hand, the top of the stack is taken up: the next
/// statement of a block, or the test of a loop. With an empty stack the
/// program is done.
pub open spec fn step_idle(m: MachineView) -> (MachineView, ActionView) {
    if m.frames.len() == 0 {
        halt(m, ActionView::Finish)
    } else {
        let below = m.frames.drop_last();
        match m.frames.last() {
            FrameView::Sequence { statements, next } => if next < statements.len() {
                begin_statement(
                    m,
                    below.push(FrameView::Sequence { statements, next: next + 1 }),
                    statements[next as int],
                )
            } else {
                proceed(m, below, FocusView::Idle)
            },
            FrameView::Loop { condition, body } => begin_condition(
                m,
                below.push(FrameView::Repeat { condition, body }),
                condition,
            ),
            _ => halt(m, ActionView::Abort(FaultView::UnexpectedEvent)),
        }
    }
}

/// An expression is evaluated: a literal is its text as written, a variable
/// is its value in the store, and an operation begins with its first
/// operand.
pub open spec fn step_expression(m: MachineView, expression: ExpressionView) -> (
    MachineView,
    ActionView,
) {
    match expression {
        ExpressionView::Literal(LiteralView::String(text)) => proceed(
            m,
            m.frames,
            FocusView::Text(text),
        ),
        ExpressionView::Literal(LiteralView::Number(text)) => proceed(
            m,
            m.frames,
            FocusView::Text(text),
        ),
        ExpressionView::Ident(name) => if m.store.contains_key(name) {
            proceed(m, m.frames, FocusView::Text(m.store[name]))
        } else {
            halt(m, ActionView::Abort(FaultView::UnassignedVariable(name)))
        },
        ExpressionView::UnaryOp(_, operand) => proceed(
            m,
            m.frames.push(FrameView::Sign),
            FocusView::Expression(*operand),
        ),
        ExpressionView::BinaryOp(left, operator, right) => proceed(
            m,
            m.frames.push(FrameView::Left(operator, *right)),
            FocusView::Expression(*left),
        ),
    }
}

/// A text is handed to the top of the stack: it is printed, or stored, or,
/// as an operand, sent out to be read as a number.
pub open spec fn step_text(m: MachineView, text: Seq<char>) -> (MachineView, ActionView) {
    if m.frames.len() == 0 {
        halt(m, ActionView::Abort(FaultView::UnexpectedEvent))
    } else {
        let below = m.frames.drop_last();
        match m.frames.last() {
            FrameView::Print => (
                MachineView { frames: below, focus: FocusView::Idle, ..m },
                ActionView::Print(text),
            ),
            FrameView::Store(name) => if m.declared.contains(name) {
                proceed(
                    MachineView { store: m.store.insert(name, text), ..m },
                    below,
                    FocusView::Idle,
                )
            } else {
                halt(m, ActionView::Abort(FaultView::UnknownTarget(name)))
            },
            operand => if takes_number(operand) {
                (MachineView { focus: FocusView::AwaitParsed(text), ..m }, ActionView::Parse(text))
            } else {
                halt(m, ActionView::Abort(FaultView::UnexpectedEvent))
            },
        }
    }
}

/// The operand `text` has been read as `number`. A unary operation hands
/// on the text of its operand as it was; the sign is not applied. A left
/// operand makes way for the right one. With the right operand the
/// operation, or the comparison, is sent out.
pub open spec fn step_number(m: MachineView, text: Seq<char>, number: Number) -> (
    MachineView,
    ActionView,
) {
    if m.frames.len() == 0 {
        halt(m, ActionView::Abort(FaultView::UnexpectedEvent))
    } else {
        let below = m.frames.drop_last();
        match m.frames.last() {
            FrameView::Sign => proceed(m, below, FocusView::Text(text)),
            FrameView::Left(operator, right) => proceed(
                m,
                below.push(FrameView::Right(operator, number)),
                FocusView::Expression(right),
            ),
            FrameView::Right(operator, left) => (
                MachineView { frames: below, focus: FocusView::AwaitComputed, ..m },
                ActionView::Compute(operator, left, number),
            ),
            FrameView::TestLeft(comparator, right) => proceed(
                m,
                below.push(FrameView::TestRight(comparator, number)),
                FocusView::Expression(right),
            ),
            FrameView::TestRight(comparator, left) => (
                MachineView { frames: below, focus: FocusView::AwaitCompared(comparator), ..m },
                ActionView::Compare(left, number),
            ),
            _ => halt(m, ActionView::Abort(FaultView::UnexpectedEvent)),
        }
    }
}

/// A condition has been decided. A clause whose condition holds runs its
/// body, and the clauses behind it are dropped; otherwise the next clause
/// is begun, if there is one. A loop whose condition holds runs its body
/// and is tested again; otherwise it is left.
pub open spec fn step_truth(m: MachineView, truth: bool) -> (MachineView, ActionView) {
    if m.frames.len() == 0 {
        halt(m, ActionView::Abort(FaultView::UnexpectedEvent))
    } else {
        let below = m.frames.drop_last();
        match m.frames.last() {
            FrameView::Branch { body, other } => if truth {
                proceed(
                    m,
                    below.push(FrameView::Sequence { statements: body, next: 0 }),
                    FocusView::Idle,
                )
            } else {
                match other {
                    Some(next) => begin_chain(m, below, *next),
                    None => proceed(m, below, FocusView::Idle),
                }
            },
            FrameView::Repeat { condition, body } => if truth {
                proceed(
                    m,
                    below.push(FrameView::Loop { condition, body }).push(
                        FrameView::Sequence { statements: body, next: 0 },
                    ),
                    FocusView::Idle,
                )
            } else {
                proceed(m, below, FocusView::Idle)
            },
            _ => halt(m, ActionView::Abort(FaultView::UnexpectedEvent)),
        }
    }
}

/// The first transition of a run: the declaration check. A fault ends the
/// run before any statement; otherwise the program is put on the stack.
pub open spec fn step_fresh(m: MachineView) -> (MachineView, ActionView) {
    let found = resolve(m.program, m.declared);
    let checked = MachineView { declared: found.declared, ..m };
    match found.fault {
        Some(name) => halt(checked, ActionView::Abort(FaultView::UndeclaredAssignment(name))),
        None => proceed(
            checked,
            m.frames.push(FrameView::Sequence { statements: m.program, next: 0 }),
            FocusView::Idle,
        ),
    }
}

/// Whether `event` answers what a machine with this focus has asked.
pub open spec fn expected(focus: FocusView, event: EventView) -> bool {
    match focus {
        FocusView::Fresh | FocusView::Idle | FocusView::Expression(_) | FocusView::Text(_) => event
            is Resume,
        FocusView::AwaitParsed(_) => event is Parsed,
        FocusView::AwaitComputed => event is Computed,
        FocusView::AwaitCompared(_) => event is Compared,
        FocusView::Stopped => true,
    }
}

/// One transition: the machine after it, and the action it asks for.
///
/// A machine whose run is over stays as it is and answers `Finish`. An
/// event that does not answer what was asked ends the run.
pub open spec fn step(m: MachineView, event: EventView) -> (MachineView, ActionView) {
    if m.focus is Stopped {
        (m, ActionView::Finish)
    } else if !expected(m.focus, event) {
        halt(m, ActionView::Abort(FaultView::UnexpectedEvent))
    } else {
        match m.focus {
            FocusView::Fresh => step_fresh(m),
            FocusView::Idle => step_idle(m),
            FocusView::Expression(expression) => step_expression(m, expression),
            FocusView::Text(text) => step_text(m, text),
            FocusView::AwaitParsed(text) => match event {
                EventView::Parsed(Some(number)) => step_number(m, text, number),
                _ => halt(m, ActionView::Abort(FaultView::NotNumeric(text))),
            },
            FocusView::AwaitComputed => match event {
                EventView::Computed(text) => proceed(m, m.frames, FocusView::Text(text)),
                _ => halt(m, ActionView::Abort(FaultView::UnexpectedEvent)),
            },
            FocusView::AwaitCompared(comparator) => match event {
                EventView::Compared(relation) => step_truth(
                    m,
                    comparator_holds(comparator, relation),
                ),
                _ => halt(m, ActionView::Abort(FaultView::UnexpectedEvent)),
            },
            FocusView::Stopped => (m, ActionView::Finish),
        }
    }
}

/// A frame that is taken up when nothing is in hand.
pub open spec fn rests(frame: FrameView) -> bool {
    frame is Sequence || frame is Loop
}

/// A frame that takes a number, and so a text that is to be read as one.
pub open spec fn takes_number(frame: FrameView) -> bool {
    frame is Sign || frame is Left || frame is Right || frame is TestLeft || frame is TestRight
}

/// A frame that takes a text.
pub open spec fn takes_text(frame: FrameView) -> bool {
    frame is Print || frame is Store || takes_number(frame)
}

/// A frame that takes the truth of a condition.
pub open spec fn takes_truth(frame: FrameView) -> bool {
    frame is Branch || frame is Repeat
}

/// Whether `above` may lie directly on `below`: what `above` yields when it
/// is done is what `below` takes.
pub open spec fn fits(below: FrameView, above: FrameView) -> bool {
    if above is TestLeft || above is TestRight {
        takes_truth(below)
    } else if above is Sign || above is Left || above is Right {
        takes_text(below)
    } else {
        rests(below)
    }
}

/// Whether the table holds every target that the frame may still assign.
pub open spec fn frame_covered(frame: FrameView, table: Set<Seq<char>>) -> bool {
    match frame {
        FrameView::Sequence { statements, .. } => block_covered(statements, table),
        FrameView::Loop { body, .. } => block_covered(body, table),
        FrameView::Repeat { body, .. } => block_covered(body, table),
        FrameView::Branch { body, other } => block_covered(body, table) && match other {
            Some(next) => chain_covered(*next, table),
            None => true,
        },
        FrameView::Store(name) => table.contains(name),
        _ => true,
    }
}

/// Whether the stack is one that a run can build: every frame lies on one
/// that takes what it yields, the lowest frame is a block, and the table of
/// declared names covers what is left to run.
pub open spec fn stack_wf(frames: Seq<FrameView>, table: Set<Seq<char>>) -> bool {
    &&& forall|i: int| 0 <= i < frames.len() ==> frame_covered(#[trigger] frames[i], table)
    &&& forall|i: int| 0 < i < frames.len() ==> fits(frames[i - 1], #[trigger] frames[i])
    &&& frames.len() > 0 ==> frames[0] is Sequence
}

/// Whether the top of the stack takes what the focus will yield.
pub open spec fn focus_wf(focus: FocusView, frames: Seq<FrameView>) -> bool {
    match focus {
        FocusView::Fresh => frames.len() == 0,
        FocusView::Idle => frames.len() > 0 ==> rests(frames.last()),
        FocusView::Expression(_) => frames.len() > 0 && takes_text(frames.last()),
        FocusView::Text(_) => frames.len() > 0 && takes_text(frames.last()),
        FocusView::AwaitComputed => frames.len() > 0 && takes_text(frames.last()),
        FocusView::AwaitParsed(_) => frames.len() > 0 && takes_number(frames.last()),
        FocusView::AwaitCompared(_) => frames.len() > 0 && takes_truth(frames.last()),
        FocusView::Stopped => true,
    }
}

/// The states that a run passes through.
pub open spec fn machine_wf(m: MachineView) -> bool {
    stack_wf(m.frames, m.declared) && focus_wf(m.focus, m.frames)
}

proof fn lemma_push_wf(frames: Seq<FrameView>, table: Set<Seq<char>>, frame: FrameView)
    requires
        stack_wf(frames, table),
        frame_covered(frame, table),
        frames.len() > 0 ==> fits(frames.last(), frame),
        frames.len() == 0 ==> frame is Sequence,
    ensures
        stack_wf(frames.push(frame), table),
{
    let pushed = frames.push(frame);
    assert forall|i: int| 0 <= i < pushed.len() implies frame_covered(
        #[trigger] pushed[i],
        table,
    ) by {
        if i < frames.len() {
            assert(pushed[i] == frames[i]);
        }
    }
    assert forall|i: int| 0 < i < pushed.len() implies fits(pushed[i - 1], #[trigger] pushed[i]) by {
        if i < frames.len() {
            assert(pushed[i] == frames[i]);
            assert(pushed[i - 1] == frames[i - 1]);
        }
    }
}

proof fn lemma_pop_wf(frames: Seq<FrameView>, table: Set<Seq<char>>)
    requires
        stack_wf(frames, table),
        frames.len() > 0,
    ensures
        stack_wf(frames.drop_last(), table),
        frames.len() > 1 ==> fits(frames.drop_last().last(), frames.last()),
        frames.len() == 1 ==> frames.last() is Sequence,
        frame_covered(frames.last(), table),
{
    let popped = frames.drop_last();
    assert forall|i: int| 0 <= i < popped.len() implies frame_covered(
        #[trigger] popped[i],
        table,
    ) by {
        assert(popped[i] == frames[i]);
    }
    assert forall|i: int| 0 < i < popped.len() implies fits(popped[i - 1], #[trigger] popped[i]) by {
        assert(popped[i] == frames[i]);
        assert(popped[i - 1] == frames[i - 1]);
    }
    if frames.len() > 1 {
        assert(fits(frames[frames.len() - 2], frames[frames.len() - 1]));
    }
}

proof fn lemma_begin_condition_wf(m: MachineView, frames: Seq<FrameView>, test: ConditionView)
    requires
        stack_wf(frames, m.declared),
        frames.len() > 0,
        takes_truth(frames.last()),
    ensures
        machine_wf(begin_condition(m, frames, test).0),
        begin_condition(m, frames, test).1 is Continue,
{
    lemma_push_wf(frames, m.declared, FrameView::TestLeft(test.comparator, test.right));
}

proof fn lemma_begin_chain_wf(m: MachineView, frames: Seq<FrameView>, chain: IfView)
    requires
        stack_wf(frames, m.declared),
        frames.len() > 0,
        rests(frames.last()),
        chain_covered(chain, m.declared),
    ensures
        machine_wf(begin_chain(m, frames, chain).0),
        begin_chain(m, frames, chain).1 is Continue,
{
    match chain {
        IfView::If(test, body, other) => {
            let branch = FrameView::Branch { body, other };
            lemma_push_wf(frames, m.declared, branch);
            lemma_begin_condition_wf(m, frames.push(branch), test);
        },
        IfView::ElseIf(test, body, other) => {
            let branch = FrameView::Branch { body, other };
            lemma_push_wf(frames, m.declared, branch);
            lemma_begin_condition_wf(m, frames.push(branch), test);
        },
        IfView::Else(body) => {
            lemma_push_wf(
                frames,
                m.declared,
                FrameView::Sequence { statements: body, next: 0 },
            );
        },
    }
}

proof fn lemma_begin_statement_wf(m: MachineView, frames: Seq<FrameView>, statement: StatementView)
    requires
        stack_wf(frames, m.declared),
        frames.len() > 0,
        rests(frames.last()),
        statement_covered(statement, m.declared),
    ensures
        machine_wf(begin_statement(m, frames, statement).0),
        begin_statement(m, frames, statement).1 is Continue,
{
    match statement {
        StatementView::Print(_) => {
            lemma_push_wf(frames, m.declared, FrameView::Print);
        },
        StatementView::Let(name, _) => {
            lemma_push_wf(frames, m.declared, FrameView::Store(name));
        },
        StatementView::Assignment(name, _) => {
            lemma_push_wf(frames, m.declared, FrameView::Store(name));
        },
        StatementView::If(chain) => {
            lemma_begin_chain_wf(m, frames, chain);
        },
        StatementView::While(condition, body) => {
            lemma_push_wf(frames, m.declared, FrameView::Loop { condition, body });
        },
    }
}

/// A transition leads from a state that a run passes through to another
/// such state.
pub proof fn lemma_step_wf(m: MachineView, event: EventView)
    requires
        machine_wf(m),
    ensures
        machine_wf(step(m, event).0),
{
    if m.focus is Stopped || !expected(m.focus, event) {
        return ;
    }
    let table = m.declared;
    if m.frames.len() > 0 {
        lemma_pop_wf(m.frames, table);
    }
    let below = m.frames.drop_last();
    match m.focus {
        FocusView::Fresh => {
            let found = resolve(m.program, m.declared);
            if found.fault is None {
                lemma_resolved_is_covered(m.program, m.declared);
                assert(m.frames =~= Seq::<FrameView>::empty());
                lemma_push_wf(
                    Seq::empty(),
                    found.declared,
                    FrameView::Sequence { statements: m.program, next: 0 },
                );
            }
        },
        FocusView::Idle => {
            if m.frames.len() > 0 {
                match m.frames.last() {
                    FrameView::Sequence { statements, next } => {
                        if next < statements.len() {
                            let moved = FrameView::Sequence { statements, next: next + 1 };
                            lemma_push_wf(below, table, moved);
                            lemma_begin_statement_wf(m, below.push(moved), statements[next as int]);
                        }
                    },
                    FrameView::Loop { condition, body } => {
                        let repeat = FrameView::Repeat { condition, body };
                        lemma_push_wf(below, table, repeat);
                        lemma_begin_condition_wf(m, below.push(repeat), condition);
                    },
                    _ => {},
                }
            }
        },
        FocusView::Expression(expression) => {
            match expression {
                ExpressionView::UnaryOp(_, _) => {
                    lemma_push_wf(m.frames, table, FrameView::Sign);
                },
                ExpressionView::BinaryOp(_, operator, right) => {
                    lemma_push_wf(m.frames, table, FrameView::Left(operator, *right));
                },
                _ => {},
            }
        },
        FocusView::Text(_) => {},
        FocusView::AwaitParsed(text) => {
            match event {
                EventView::Parsed(Some(number)) => {
                    match m.frames.last() {
                        FrameView::Left(operator, _) => {
                            lemma_push_wf(below, table, FrameView::Right(operator, number));
                        },
                        FrameView::TestLeft(comparator, _) => {
                            lemma_push_wf(below, table, FrameView::TestRight(comparator, number));
                        },
                        _ => {},
                    }
                },
                _ => {},
            }
        },
        FocusView::AwaitComputed => {},
        FocusView::AwaitCompared(comparator) => {
            match event {
                EventView::Compared(relation) => {
                    match m.frames.last() {
                        FrameView::Branch { body, other } => {
                            if comparator_holds(comparator, relation) {
                                lemma_push_wf(
                                    below,
                                    table,
                                    FrameView::Sequence { statements: body, next: 0 },
                                );
                            } else {
                                match other {
                                    Some(next) => {
                                        lemma_begin_chain_wf(m, below, *next);
                                    },
                                    None => {},
                                }
                            }
                        },
                        FrameView::Repeat { condition, body } => {
                            if comparator_holds(comparator, relation) {
                                let again = FrameView::Loop { condition, body };
                                lemma_push_wf(below, table, again);
                                lemma_push_wf(
                                    below.push(again),
                                    table,
                                    FrameView::Sequence { statements: body, next: 0 },
                                );
                            }
                        },
                        _ => {},
                    }
                },
                _ => {},
            }
        },
        FocusView::Stopped => {},
    }
}

/// A run fails only where the program is at fault.
///
/// From a state that a run passes through, and with the answer that the
/// machine has asked for, a transition ends the run in a fault only in
/// three ways: the declaration check, at the start, finds an assignment to
/// an undeclared name; an expression names a variable that has no value in
/// the store; or a text that an operator or comparator needs as a number
/// was reported to be none. The target of a declaration or assignment is
/// always found in the table, and the machine never finds its own stack out
/// of order.
pub proof fn lemma_faults_are_the_programs(m: MachineView, event: EventView)
    requires
        machine_wf(m),
        expected(m.focus, event),
    ensures
        step(m, event).1 matches ActionView::Abort(fault) ==> match fault {
            FaultView::UndeclaredAssignment(name) => m.focus is Fresh && resolve(
                m.program,
                m.declared,
            ).fault == Some(name),
            FaultView::UnassignedVariable(name) => m.focus == FocusView::Expression(
                ExpressionView::Ident(name),
            ) && !m.store.contains_key(name),
            FaultView::NotNumeric(text) => m.focus == FocusView::AwaitParsed(text) && event
                == EventView::Parsed(None),
            FaultView::UnknownTarget(_) => false,
            FaultView::UnexpectedEvent => false,
        },
{
    if m.frames.len() > 0 {
        lemma_pop_wf(m.frames, m.declared);
    }
}


/// One entry of the machine's stack. See [`FrameView`].
#[derive(Clone, Copy)]
pub enum Frame<'a> {
    Sequence { block: &'a Block, next: usize },
    Loop { condition: &'a Condition, body: &'a Block },
    Repeat { condition: &'a Condition, body: &'a Block },
    Branch { body: &'a Block, other: &'a Option<Box<IfStatement>> },
    Print,
    Store(&'a Ident),
    Sign,
    Left(&'a BinaryOp),
    Right(Operator, Number),
    TestLeft(&'a Condition),
    TestRight(Comparator, Number),
}

impl<'a> View for Frame<'a> {
    type V = FrameView;

    open spec fn view(&self) -> FrameView {
        match self {
            Frame::Sequence { block, next } => FrameView::Sequence {
                statements: block@,
                next: *next as nat,
            },
            Frame::Loop { condition, body } => FrameView::Loop {
                condition: condition@,
                body: body@,
            },
            Frame::Repeat { condition, body } => FrameView::Repeat {
                condition: condition@,
                body: body@,
            },
            Frame::Branch { body, other } => FrameView::Branch {
                body: body@,
                other: clause_view(**other),
            },
            Frame::Print => FrameView::Print,
            Frame::Store(ident) => FrameView::Store(ident@),
            Frame::Sign => FrameView::Sign,
            Frame::Left(operation) => FrameView::Left(operation.operator, operation.right_term@),
            Frame::Right(operator, left) => FrameView::Right(*operator, *left),
            Frame::TestLeft(condition) => FrameView::TestLeft(
                condition.comparator,
                condition.right_expression@,
            ),
            Frame::TestRight(comparator, left) => FrameView::TestRight(*comparator, *left),
        }
    }
}

/// What the machine has in hand. See [`FocusView`].
pub enum Focus<'a> {
    Fresh,
    Idle,
    Expression(&'a Expression),
    Text(String),
    AwaitParsed(String),
    AwaitComputed,
    AwaitCompared(Comparator),
    Stopped,
}

impl<'a> View for Focus<'a> {
    type V = FocusView;

    open spec fn view(&self) -> FocusView {
        match self {
            Focus::Fresh => FocusView::Fresh,
            Focus::Idle => FocusView::Idle,
            Focus::Expression(expression) => FocusView::Expression(expression@),
            Focus::Text(text) => FocusView::Text(text@),
            Focus::AwaitParsed(text) => FocusView::AwaitParsed(text@),
            Focus::AwaitComputed => FocusView::AwaitComputed,
            Focus::AwaitCompared(comparator) => FocusView::AwaitCompared(*comparator),
            Focus::Stopped => FocusView::Stopped,
        }
    }
}

/// The views of the frames of a stack, from the bottom up.
pub open spec fn frames_view(frames: Seq<Frame>) -> Seq<FrameView> {
    Seq::new(frames.len(), |i: int| frames[i]@)
}

/// The evaluator of one program.
pub struct Interpreter<'a> {
    program: &'a AbstractSyntaxTree,
    symbol_table: SymbolTable,
    global_scope: Store,
    frames: Vec<Frame<'a>>,
    focus: Focus<'a>,
}

impl<'a> View for Interpreter<'a> {
    type V = MachineView;

    closed spec fn view(&self) -> MachineView {
        MachineView {
            program: self.program@,
            declared: self.symbol_table@,
            store: self.global_scope@,
            frames: frames_view(self.frames@),
            focus: self.focus@,
        }
    }
}

impl<'a> Interpreter<'a> {
    /// The evaluator is in a state that a run passes through.
    pub open spec fn wf(&self) -> bool {
        machine_wf(self@)
    }

    /// An evaluator for `program`, before its run.
    pub fn new(program: &'a AbstractSyntaxTree) -> (interpreter: Interpreter<'a>)
        ensures
            interpreter@ == initial(program@),
            interpreter.wf(),
    {
        let interpreter = Interpreter {
            program: program,
            symbol_table: SymbolTable::new(),
            global_scope: Store::new(),
            frames: Vec::new(),
            focus: Focus::Fresh,
        };
        assert(interpreter@.frames =~= Seq::<FrameView>::empty());
        interpreter
    }

    /// Makes one transition: takes the answer to the action returned last
    /// and returns the next action. The first call of a run takes
    /// [`Event::Resume`].
    ///
    /// The transition is the one that [`step`] defines. An evaluator that
    /// is handed, call after call, the answer it has asked for prints what
    /// the program prints and ends as the program ends; see
    /// [`crate::interpreter::evaluation`].
    pub fn interpret(&mut self, event: Event) -> (action: Action)
        requires
            old(self).wf(),
        ensures
            final(self).wf(),
            (final(self)@, action@) == step(old(self)@, event@),
    {
        proof {
            lemma_step_wf(self@, event@);
        }
        let mut focus = Focus::Stopped;
        std::mem::swap(&mut focus, &mut self.focus);
        match focus {
            Focus::Stopped => Action::Finish,
            Focus::Fresh => match event {
                Event::Resume => self.process_program(),
                _ => self.abort(Fault::UnexpectedEvent),
            },
            Focus::Idle => match event {
                Event::Resume => self.process_block(),
                _ => self.abort(Fault::UnexpectedEvent),
            },
            Focus::Expression(expression) => match event {
                Event::Resume => self.process_expression(expression),
                _ => self.abort(Fault::UnexpectedEvent),
            },
            Focus::Text(text) => match event {
                Event::Resume => self.process_text(text),
                _ => self.abort(Fault::UnexpectedEvent),
            },
            Focus::AwaitParsed(text) => match event {
                Event::Parsed(Some(number)) => self.process_binary_op(text, number),
                Event::Parsed(None) => self.abort(Fault::NotNumeric(text)),
                _ => self.abort(Fault::UnexpectedEvent),
            },
            Focus::AwaitComputed => match event {
                Event::Computed(text) => {
                    self.focus = Focus::Text(text);
                    Action::Continue
                },
                _ => self.abort(Fault::UnexpectedEvent),
            },
            Focus::AwaitCompared(comparator) => match event {
                Event::Compared(relation) => self.process_if(comparator.holds(relation)),
                _ => self.abort(Fault::UnexpectedEvent),
            },
        }
    }

    /// Ends the run with a fault.
    fn abort(&mut self, fault: Fault) -> (action: Action)
        ensures
            (final(self)@, action@) == halt(old(self)@, ActionView::Abort(fault@)),
    {
        self.focus = Focus::Stopped;
        Action::Abort(fault)
    }

    fn push(&mut self, frame: Frame<'a>)
        ensures
            final(self)@ == (MachineView {
                frames: old(self)@.frames.push(frame@),
                ..old(self)@
            }),
    {
        self.frames.push(frame);
        assert(frames_view(self.frames@) =~= frames_view(old(self).frames@).push(frame@));
    }

    fn pop(&mut self)
        requires
            old(self)@.frames.len() > 0,
        ensures
            final(self)@ == (MachineView {
                frames: old(self)@.frames.drop_last(),
                ..old(self)@
            }),
    {
        self.frames.pop();
        assert(frames_view(self.frames@) =~= frames_view(old(self).frames@).drop_last());
    }

    /// The frame on top of the stack.
    fn top(&self) -> (frame: Option<Frame<'a>>)
        ensures
            match frame {
                Some(found) => self@.frames.len() > 0 && found@ == self@.frames.last(),
                None => self@.frames.len() == 0,
            },
    {
        if self.frames.len() == 0 {
            None
        } else {
            Some(self.frames[self.frames.len() - 1])
        }
    }

    /// The declaration check, and the program put on the stack.
    fn process_program(&mut self) -> (action: Action)
        ensures
            (final(self)@, action@) == step_fresh(old(self)@),
    {
        let program: &'a AbstractSyntaxTree = self.program;
        match self.symbol_table.process_abstract_syntax_tree(program) {
            Err(ResolveError::UndeclaredAssignment(name)) => self.abort(
                Fault::UndeclaredAssignment(name),
            ),
            Ok(()) => {
                self.push(Frame::Sequence { block: &program.block, next: 0 });
                self.focus = Focus::Idle;
                Action::Continue
            },
        }
    }

    /// Takes up the top of the stack: the next statement of a block, or the
    /// test of a loop.
    fn process_block(&mut self) -> (action: Action)
        ensures
            (final(self)@, action@) == step_idle(old(self)@),
    {
        match self.top() {
            None => {
                self.focus = Focus::Stopped;
                Action::Finish
            },
            Some(Frame::Sequence { block, next }) => {
                self.pop();
                if next < block.get_length() {
                    self.push(Frame::Sequence { block: block, next: next + 1 });
                    self.process_statement(block.get_statement(next))
                } else {
                    self.focus = Focus::Idle;
                    Action::Continue
                }
            },
            Some(Frame::Loop { condition, body }) => {
                self.pop();
                self.push(Frame::Repeat { condition: condition, body: body });
                self.process_condition(condition)
            },
            Some(_) => self.abort(Fault::UnexpectedEvent),
        }
    }

    /// Begins a statement.
    fn process_statement(&mut self, statement: &'a Statement) -> (action: Action)
        ensures
            (final(self)@, action@) == begin_statement(
                old(self)@,
                old(self)@.frames,
                statement@,
            ),
    {
        match statement {
            Statement::Print(expression) => {
                self.push(Frame::Print);
                self.focus = Focus::Expression(expression);
                Action::Continue
            },
            Statement::Let(ident, expression) => {
                self.push(Frame::Store(ident));
                self.focus = Focus::Expression(expression);
                Action::Continue
            },
            Statement::Assignment(ident, expression) => {
                self.push(Frame::Store(ident));
                self.focus = Focus::Expression(expression);
                Action::Continue
            },
            Statement::If(if_statement) => self.process_else_if(if_statement),
            Statement::While(condition, block) => {
                self.push(Frame::Loop { condition: condition, body: block });
                self.focus = Focus::Idle;
                Action::Continue
            },
        }
    }

    /// Makes `text` the value of the variable that the top of the stack
    /// names, provided the variable is in the table of declared names.
    fn process_assignment(&mut self, ident: &'a Ident, text: String) -> (action: Action)
        requires
            old(self)@.frames.len() > 0,
        ensures
            (final(self)@, action@) == (if old(self)@.declared.contains(ident@) {
                proceed(
                    MachineView {
                        store: old(self)@.store.insert(ident@, text@),
                        ..old(self)@
                    },
                    old(self)@.frames.drop_last(),
                    FocusView::Idle,
                )
            } else {
                halt(old(self)@, ActionView::Abort(FaultView::UnknownTarget(ident@)))
            }),
    {
        match self.symbol_table.lookup(ident.symbol.as_str()) {
            None => self.abort(Fault::UnknownTarget(ident.symbol.clone())),
            Some(symbol) => {
                let name = symbol.name.clone();
                self.global_scope.set(name, text);
                self.pop();
                self.focus = Focus::Idle;
                Action::Continue
            },
        }
    }

    /// Begins the evaluation of an expression.
    fn process_expression(&mut self, expression: &'a Expression) -> (action: Action)
        ensures
            (final(self)@, action@) == step_expression(old(self)@, expression@),
    {
        match expression {
            Expression::Literal(literal) => {
                self.focus = Focus::Text(Self::process_literal(literal));
                Action::Continue
            },
            Expression::Ident(ident) => match self.global_scope.get(ident.symbol.as_str()) {
                Some(value) => {
                    let text = value.clone();
                    self.focus = Focus::Text(text);
                    Action::Continue
                },
                None => self.abort(Fault::UnassignedVariable(ident.symbol.clone())),
            },
            Expression::UnaryOp(operation) => {
                self.push(Frame::Sign);
                self.focus = Focus::Expression(&operation.term);
                Action::Continue
            },
            Expression::BinaryOp(operation) => {
                self.push(Frame::Left(operation));
                self.focus = Focus::Expression(&operation.left_term);
                Action::Continue
            },
        }
    }

    /// The text of a literal, as written.
    fn process_literal(literal: &Literal) -> (text: String)
        ensures
            match literal@ {
                LiteralView::String(written) => text@ == written,
                LiteralView::Number(written) => text@ == written,
            },
    {
        match literal {
            Literal::String(s) => s.clone(),
            Literal::Number(s) => s.clone(),
        }
    }

    /// Hands a text to the top of the stack.
    fn process_text(&mut self, text: String) -> (action: Action)
        ensures
            (final(self)@, action@) == step_text(old(self)@, text@),
    {
        match self.top() {
            None => self.abort(Fault::UnexpectedEvent),
            Some(Frame::Print) => {
                self.pop();
                self.focus = Focus::Idle;
                Action::Print(text)
            },
            Some(Frame::Store(ident)) => self.process_assignment(ident, text),
            Some(Frame::Sequence { .. }) => self.abort(Fault::UnexpectedEvent),
            Some(Frame::Loop { .. }) => self.abort(Fault::UnexpectedEvent),
            Some(Frame::Repeat { .. }) => self.abort(Fault::UnexpectedEvent),
            Some(Frame::Branch { .. }) => self.abort(Fault::UnexpectedEvent),
            Some(_) => {
                let asked = text.clone();
                self.focus = Focus::AwaitParsed(text);
                Action::Parse(asked)
            },
        }
    }

    /// Hands an operand, read as a number, to the operation or condition
    /// that waits for it.
    fn process_binary_op(&mut self, text: String, number: Number) -> (action: Action)
        ensures
            (final(self)@, action@) == step_number(old(self)@, text@, number),
    {
        match self.top() {
            None => self.abort(Fault::UnexpectedEvent),
            Some(Frame::Sign) => {
                self.pop();
                self.focus = Focus::Text(text);
                Action::Continue
            },
            Some(Frame::Left(operation)) => {
                self.pop();
                self.push(Frame::Right(operation.operator, number));
                self.focus = Focus::Expression(&operation.right_term);
                Action::Continue
            },
            Some(Frame::Right(operator, left)) => {
                self.pop();
                self.focus = Focus::AwaitComputed;
                Action::Compute(operator, left, number)
            },
            Some(Frame::TestLeft(condition)) => {
                self.pop();
                self.push(Frame::TestRight(condition.comparator, number));
                self.focus = Focus::Expression(&condition.right_expression);
                Action::Continue
            },
            Some(Frame::TestRight(comparator, left)) => {
                self.pop();
                self.focus = Focus::AwaitCompared(comparator);
                Action::Compare(left, number)
            },
            Some(_) => self.abort(Fault::UnexpectedEvent),
        }
    }

    /// Begins a condition: its left side is evaluated first.
    fn process_condition(&mut self, condition: &'a Condition) -> (action: Action)
        ensures
            (final(self)@, action@) == begin_condition(
                old(self)@,
                old(self)@.frames,
                condition@,
            ),
    {
        self.push(Frame::TestLeft(condition));
        self.focus = Focus::Expression(&condition.left_expression);
        Action::Continue
    }

    /// Acts on the truth of a condition: a clause runs its body or gives
    /// way to the next clause, a loop runs its body again or ends.
    fn process_if(&mut self, truth: bool) -> (action: Action)
        ensures
            (final(self)@, action@) == step_truth(old(self)@, truth),
    {
        match self.top() {
            None => self.abort(Fault::UnexpectedEvent),
            Some(Frame::Branch { body, other }) => {
                self.pop();
                if truth {
                    self.push(Frame::Sequence { block: body, next: 0 });
                    self.focus = Focus::Idle;
                    Action::Continue
                } else {
                    match other {
                        Some(next) => self.process_else_if(next),
                        None => {
                            self.focus = Focus::Idle;
                            Action::Continue
                        },
                    }
                }
            },
            Some(Frame::Repeat { condition, body }) => {
                self.pop();
                if truth {
                    self.push(Frame::Loop { condition: condition, body: body });
                    self.push(Frame::Sequence { block: body, next: 0 });
                }
                self.focus = Focus::Idle;
                Action::Continue
            },
            Some(_) => self.abort(Fault::UnexpectedEvent),
        }
    }

    /// Begins a clause of a conditional.
    fn process_else_if(&mut self, else_if: &'a IfStatement) -> (action: Action)
        ensures
            (final(self)@, action@) == begin_chain(old(self)@, old(self)@.frames, else_if@),
    {
        match else_if {
            IfStatement::If(condition, block, other) => {
                self.push(Frame::Branch { body: block, other: other });
                self.process_condition(condition)
            },
            IfStatement::ElseIf(condition, block, other) => {
                self.push(Frame::Branch { body: block, other: other });
                self.process_condition(condition)
            },
            IfStatement::Else(block) => {
                self.push(Frame::Sequence { block: block, next: 0 });
                self.focus = Focus::Idle;
                Action::Continue
            },
        }
    }
}

} // verus!
