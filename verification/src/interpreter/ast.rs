//! The syntax tree that the parser builds and the later passes read.
//!
//! Every node owns its children. Each type has a view in which texts are
//! sequences of characters and lists are sequences; the contracts of the
//! parser, the resolver and the evaluator speak of those views.

use vstd::prelude::*;

verus! {

/// The six relations that a condition can test.
#[derive(Debug, PartialEq, Eq, Clone, Copy, Structural)]
pub enum Comparator {
    Equal,
    GreaterThan,
    LessThan,
    GreaterThanOrEqual,
    LessThanOrEqual,
    NotEqual,
}

/// The four arithmetic operators. A unary operation holds one too; the
/// parser only ever puts `Plus` or `Minus` there.
#[derive(Debug, PartialEq, Eq, Clone, Copy, Structural)]
pub enum Operator {
    Plus,
    Minus,
    Times,
    Divides,
}

/// A literal, kept as the text it was written with.
#[derive(Debug)]
pub enum Literal {
    String(String),
    Number(String),
}

/// The name of a variable.
#[derive(Debug)]
pub struct Ident {
    pub symbol: String,
}

/// An expression. Operations own their operands.
#[derive(Debug)]
pub enum Expression {
    Literal(Literal),
    Ident(Ident),
    BinaryOp(Box<BinaryOp>),
    UnaryOp(Box<UnaryOp>),
}

/// An operator between a left and a right operand.
#[derive(Debug)]
pub struct BinaryOp {
    pub left_term: Expression,
    pub operator: Operator,
    pub right_term: Expression,
}

/// A sign in front of an operand.
#[derive(Debug)]
pub struct UnaryOp {
    pub operator: Operator,
    pub term: Expression,
}

/// A comparator between two expressions.
#[derive(Debug)]
pub struct Condition {
    pub left_expression: Expression,
    pub comparator: Comparator,
    pub right_expression: Expression,
}

/// A list of statements: a whole program, or the body of a clause or loop.
#[derive(Debug)]
pub struct Block {
    pub statements: Vec<Statement>,
}

/// A statement. A conditional and a loop own the statements of their
/// bodies.
#[derive(Debug)]
pub enum Statement {
    Print(Expression),
    Let(Ident, Expression),
    Assignment(Ident, Expression),
    If(IfStatement),
    While(Condition, Block),
}

/// One clause of a conditional and, behind it, the clauses that follow.
#[derive(Debug)]
pub enum IfStatement {
    If(Condition, Block, Option<Box<IfStatement>>),
    ElseIf(Condition, Block, Option<Box<IfStatement>>),
    Else(Block),
}

/// A whole program.
#[derive(Debug)]
pub struct AbstractSyntaxTree {
    pub block: Block,
}

/// What a literal is, as plain values.
pub enum LiteralView {
    String(Seq<char>),
    Number(Seq<char>),
}

/// What an expression is, as plain values.
pub enum ExpressionView {
    Literal(LiteralView),
    Ident(Seq<char>),
    BinaryOp(Box<ExpressionView>, Operator, Box<ExpressionView>),
    UnaryOp(Operator, Box<ExpressionView>),
}

/// What a condition is, as plain values.
pub struct ConditionView {
    pub left: ExpressionView,
    pub comparator: Comparator,
    pub right: ExpressionView,
}

/// What a statement is, as plain values. A block is the sequence of its
/// statements.
pub enum StatementView {
    Print(ExpressionView),
    Let(Seq<char>, ExpressionView),
    Assignment(Seq<char>, ExpressionView),
    If(IfView),
    While(ConditionView, Seq<StatementView>),
}

/// What a clause of a conditional is, with the clauses behind it, as plain
/// values.
pub enum IfView {
    If(ConditionView, Seq<StatementView>, Option<Box<IfView>>),
    ElseIf(ConditionView, Seq<StatementView>, Option<Box<IfView>>),
    Else(Seq<StatementView>),
}

impl View for Literal {
    type V = LiteralView;

    open spec fn view(&self) -> LiteralView {
        match self {
            Literal::String(s) => LiteralView::String(s@),
            Literal::Number(s) => LiteralView::Number(s@),
        }
    }
}

impl View for Ident {
    type V = Seq<char>;

    open spec fn view(&self) -> Seq<char> {
        self.symbol@
    }
}

impl View for Expression {
    type V = ExpressionView;

    open spec fn view(&self) -> ExpressionView
        decreases self,
    {
        match self {
            Expression::Literal(literal) => ExpressionView::Literal(literal@),
            Expression::Ident(ident) => ExpressionView::Ident(ident@),
            Expression::BinaryOp(op) => ExpressionView::BinaryOp(
                Box::new(op.left_term.view()),
                op.operator,
                Box::new(op.right_term.view()),
            ),
            Expression::UnaryOp(op) => ExpressionView::UnaryOp(
                op.operator,
                Box::new(op.term.view()),
            ),
        }
    }
}

impl View for BinaryOp {
    type V = ExpressionView;

    open spec fn view(&self) -> ExpressionView {
        ExpressionView::BinaryOp(
            Box::new(self.left_term@),
            self.operator,
            Box::new(self.right_term@),
        )
    }
}

impl View for UnaryOp {
    type V = ExpressionView;

    open spec fn view(&self) -> ExpressionView {
        ExpressionView::UnaryOp(self.operator, Box::new(self.term@))
    }
}

impl View for Condition {
    type V = ConditionView;

    open spec fn view(&self) -> ConditionView {
        ConditionView {
            left: self.left_expression@,
            comparator: self.comparator,
            right: self.right_expression@,
        }
    }
}

/// The views of the statements of a block, in order.
pub open spec fn block_view(block: &Block) -> Seq<StatementView>
    decreases block,
{
    Seq::new(
        block.statements.len() as nat,
        |i: int|
            if 0 <= i < block.statements.len() {
                statement_view(&block.statements[i])
            } else {
                arbitrary()
            },
    )
}

/// The view of a statement.
pub open spec fn statement_view(statement: &Statement) -> StatementView
    decreases statement,
{
    match statement {
        Statement::Print(expression) => StatementView::Print(expression@),
        Statement::Let(ident, expression) => StatementView::Let(ident@, expression@),
        Statement::Assignment(ident, expression) => StatementView::Assignment(ident@, expression@),
        Statement::If(if_statement) => StatementView::If(if_view(if_statement)),
        Statement::While(condition, block) => StatementView::While(condition@, block_view(block)),
    }
}

/// The view of a clause and of the clauses behind it.
pub open spec fn if_view(clause: &IfStatement) -> IfView
    decreases clause,
{
    match clause {
        IfStatement::If(condition, block, other) => IfView::If(
            condition@,
            block_view(block),
            match other {
                Some(next) => Some(Box::new(if_view(&**next))),
                None => None,
            },
        ),
        IfStatement::ElseIf(condition, block, other) => IfView::ElseIf(
            condition@,
            block_view(block),
            match other {
                Some(next) => Some(Box::new(if_view(&**next))),
                None => None,
            },
        ),
        IfStatement::Else(block) => IfView::Else(block_view(block)),
    }
}

impl View for Block {
    type V = Seq<StatementView>;

    open spec fn view(&self) -> Seq<StatementView> {
        block_view(self)
    }
}

impl View for Statement {
    type V = StatementView;

    open spec fn view(&self) -> StatementView {
        statement_view(self)
    }
}

impl View for IfStatement {
    type V = IfView;

    open spec fn view(&self) -> IfView {
        if_view(self)
    }
}

impl View for AbstractSyntaxTree {
    type V = Seq<StatementView>;

    open spec fn view(&self) -> Seq<StatementView> {
        self.block@
    }
}

/// The view of the clauses behind a clause, where there are any.
pub open spec fn clause_view(other: Option<Box<IfStatement>>) -> Option<Box<IfView>> {
    match other {
        Some(next) => Some(Box::new((*next)@)),
        None => None,
    }
}

/// The views of a list of statements, in order.
pub open spec fn statements_view(statements: Seq<Statement>) -> Seq<StatementView> {
    Seq::new(statements.len(), |i: int| statements[i]@)
}

impl AbstractSyntaxTree {
    /// The program whose statements are those of `block`.
    pub fn new(block: Block) -> (tree: AbstractSyntaxTree)
        ensures
            tree.block == block,
            tree@ == block@,
    {
        AbstractSyntaxTree { block: block }
    }
}

impl Block {
    /// The block of the given statements, in their order.
    pub fn new(statements: Vec<Statement>) -> (block: Block)
        ensures
            block@ == statements_view(statements@),
    {
        let block = Block { statements: statements };
        assert(block@ =~= statements_view(statements@));
        block
    }

    /// The statements of the block.
    pub fn get_statements(&self) -> (statements: &Vec<Statement>)
        ensures
            *statements == self.statements,
            statements_view(statements@) == self@,
    {
        assert(self@ =~= statements_view(self.statements@));
        &self.statements
    }

    /// How many statements the block has.
    pub fn get_length(&self) -> (length: usize)
        ensures
            length == self@.len(),
    {
        self.statements.len()
    }

    /// The statement at index `idx`, which must be one of the block.
    pub fn get_statement(&self, idx: usize) -> (statement: &Statement)
        requires
            idx < self@.len(),
        ensures
            *statement == self.statements[idx as int],
            statement@ == self@[idx as int],
    {
        &self.statements[idx]
    }

    /// The statements of the block, to be changed in place: what the
    /// caller leaves in the list is what the block then holds.
    pub fn get_mut_statements(&mut self) -> (statements: &mut Vec<Statement>)
        ensures
            *statements == old(self).statements,
            final(self).statements == *final(statements),
            statements_view(statements@) == old(self)@,
            final(self)@ == statements_view(final(statements)@),
    {
        assert(self@ =~= statements_view(self.statements@));
        &mut self.statements
    }
}

impl Condition {
    /// The condition with these two sides and this comparator.
    pub fn new(
        left_expression: Expression,
        comparator: Comparator,
        right_expression: Expression,
    ) -> (condition: Condition)
        ensures
            condition.left_expression == left_expression,
            condition.comparator == comparator,
            condition.right_expression == right_expression,
    {
        Condition {
            left_expression: left_expression,
            comparator: comparator,
            right_expression: right_expression,
        }
    }
}

impl BinaryOp {
    /// The operation with these two operands and this operator.
    pub fn new(left_term: Expression, operator: Operator, right_term: Expression) -> (op: BinaryOp)
        ensures
            op.left_term == left_term,
            op.operator == operator,
            op.right_term == right_term,
    {
        BinaryOp { left_term: left_term, operator: operator, right_term: right_term }
    }
}

impl UnaryOp {
    /// The operation with this sign and this operand.
    pub fn new(operator: Operator, term: Expression) -> (op: UnaryOp)
        ensures
            op.operator == operator,
            op.term == term,
    {
        UnaryOp { operator: operator, term: term }
    }
}

impl Ident {
    /// The variable of this name.
    pub fn new(symbol: String) -> (ident: Ident)
        ensures
            ident.symbol == symbol,
    {
        Ident { symbol: symbol }
    }
}

} // verus!
