//! A readable printout of a syntax tree: one node to a line, every child
//! two spaces further in than its parent.
//!
//! The printout is made for reading, not for parsing back: an assignment
//! shows as an empty line at its depth, and a unary operation shows as its
//! operand alone.

use vstd::prelude::*;
use crate::interpreter::ast::AbstractSyntaxTree;
use crate::interpreter::ast::BinaryOp;
use crate::interpreter::ast::Block;
use crate::interpreter::ast::Comparator;
use crate::interpreter::ast::Condition;
use crate::interpreter::ast::ConditionView;
use crate::interpreter::ast::Expression;
use crate::interpreter::ast::ExpressionView;
use crate::interpreter::ast::IfStatement;
use crate::interpreter::ast::IfView;
use crate::interpreter::ast::Literal;
use crate::interpreter::ast::LiteralView;
use crate::interpreter::ast::Operator;
use crate::interpreter::ast::Statement;
use crate::interpreter::ast::StatementView;

verus! {

/// The indentation one level further in.
pub open spec fn deeper(indent: Seq<char>) -> Seq<char> {
    indent + seq![' ', ' ']
}

/// The end of a line.
pub open spec fn line_break() -> Seq<char> {
    seq!['\n']
}

/// The sign of an operator.
pub open spec fn operator_text(operator: Operator) -> Seq<char> {
    match operator {
        Operator::Plus => seq!['+'],
        Operator::Minus => seq!['-'],
        Operator::Times => seq!['*'],
        Operator::Divides => seq!['/'],
    }
}

/// The sign of a comparator.
pub open spec fn comparator_text(comparator: Comparator) -> Seq<char> {
    match comparator {
        Comparator::Equal => seq!['=', '='],
        Comparator::NotEqual => seq!['!', '='],
        Comparator::GreaterThan => seq!['>'],
        Comparator::GreaterThanOrEqual => seq!['>', '='],
        Comparator::LessThan => seq!['<'],
        Comparator::LessThanOrEqual => seq!['<', '='],
    }
}

/// A literal is its text, without quotes.
pub open spec fn literal_text(literal: LiteralView, indent: Seq<char>) -> Seq<char> {
    match literal {
        LiteralView::String(text) => indent + text,
        LiteralView::Number(text) => indent + text,
    }
}

/// An operation is its operator on one line and its operands below, one
/// level further in. The sign of a unary operation is not shown.
pub open spec fn expression_text(expression: ExpressionView, indent: Seq<char>) -> Seq<char>
    decreases expression,
{
    match expression {
        ExpressionView::Literal(literal) => literal_text(literal, indent),
        ExpressionView::Ident(name) => indent + name,
        ExpressionView::UnaryOp(_, operand) => expression_text(*operand, indent),
        ExpressionView::BinaryOp(left, operator, right) => indent + operator_text(operator)
            + line_break() + expression_text(*left, deeper(indent)) + line_break()
            + expression_text(*right, deeper(indent)),
    }
}

/// A condition is its comparator on one line and its two sides below, one
/// level further in.
pub open spec fn condition_text(test: ConditionView, indent: Seq<char>) -> Seq<char> {
    indent + comparator_text(test.comparator) + line_break() + expression_text(
        test.left,
        deeper(indent),
    ) + line_break() + expression_text(test.right, deeper(indent))
}

/// A statement is its keyword on one line and what it holds below, one
/// level further in. An assignment is its indentation and nothing else.
pub open spec fn statement_text(statement: StatementView, indent: Seq<char>) -> Seq<char>
    decreases statement, 0nat,
{
    match statement {
        StatementView::Print(value) => indent + seq!['p', 'r', 'i', 'n', 't', '\n']
            + expression_text(value, deeper(indent)),
        StatementView::Let(name, value) => indent + seq!['l', 'e', 't', '\n'] + deeper(indent)
            + name + line_break() + expression_text(value, deeper(indent)),
        StatementView::Assignment(_, _) => indent,
        StatementView::If(chain) => indent + chain_text(chain, indent),
        StatementView::While(test, statements) => indent + seq!['w', 'h', 'i', 'l', 'e', '\n']
            + condition_text(test, deeper(indent)) + line_break() + block_text(
            statements,
            deeper(indent),
        ),
    }
}

/// The clauses behind a clause, each on a new line.
pub open spec fn rest_text(other: Option<Box<IfView>>, indent: Seq<char>) -> Seq<char>
    decreases other, 1nat,
{
    match other {
        Some(next) => line_break() + chain_text(*next, indent),
        None => Seq::empty(),
    }
}

/// A clause, and one level further in its condition, its body and the
/// clauses behind it. An `if` clause stands behind the indentation of its
/// statement and brings none of its own.
pub open spec fn chain_text(chain: IfView, indent: Seq<char>) -> Seq<char>
    decreases chain, 0nat,
{
    match chain {
        IfView::If(test, statements, other) => seq!['i', 'f', '\n'] + condition_text(
            test,
            deeper(indent),
        ) + line_break() + block_text(statements, deeper(indent)) + rest_text(
            other,
            deeper(indent),
        ),
        IfView::ElseIf(test, statements, other) => indent + seq![
            'e',
            'l',
            's',
            'e',
            'i',
            'f',
            '\n',
        ] + condition_text(test, deeper(indent)) + line_break() + block_text(
            statements,
            deeper(indent),
        ) + rest_text(other, deeper(indent)),
        IfView::Else(statements) => indent + seq!['e', 'l', 's', 'e', '\n'] + block_text(
            statements,
            deeper(indent),
        ),
    }
}

/// The first `upto` statements of a block, each on a new line.
pub open spec fn block_lines(statements: Seq<StatementView>, upto: int, indent: Seq<char>) -> Seq<
    char,
>
    decreases statements, upto,
{
    if 0 < upto <= statements.len() {
        block_lines(statements, upto - 1, indent) + line_break() + statement_text(
            statements[upto - 1],
            indent,
        )
    } else {
        Seq::empty()
    }
}

/// The word `block`, and one level further in its statements.
pub open spec fn block_text(statements: Seq<StatementView>, indent: Seq<char>) -> Seq<char>
    decreases statements, statements.len() + 1,
{
    indent + seq!['b', 'l', 'o', 'c', 'k'] + block_lines(
        statements,
        statements.len() as int,
        deeper(indent),
    )
}

/// The printout of a whole tree.
pub open spec fn tree_text(statements: Seq<StatementView>) -> Seq<char> {
    block_text(statements, Seq::empty())
}

/// The indentation one level further in.
fn indent_deeper(indent: &str) -> (further: String)
    ensures
        further@ == deeper(indent@),
{
    proof {
        reveal_strlit("  ");
        assert("  "@ =~= seq![' ', ' ']);
    }
    let mut further = String::from_str(indent);
    further.append("  ");
    further
}

impl AbstractSyntaxTree {
    /// The printout of the tree.
    pub fn output(&self) -> (text: String)
        ensures
            text@ == tree_text(self@),
    {
        proof {
            reveal_strlit("");
            assert(""@ =~= Seq::<char>::empty());
        }
        self.block.output("")
    }
}

impl Block {
    /// The printout of the block at this indentation.
    pub fn output(&self, indent: &str) -> (text: String)
        ensures
            text@ == block_text(self@, indent@),
        decreases self, 1nat,
    {
        proof {
            reveal_strlit("block");
            assert("block"@ =~= seq!['b', 'l', 'o', 'c', 'k']);
            reveal_strlit("\n");
            assert("\n"@ =~= line_break());
        }
        let further = indent_deeper(indent);
        let mut output = String::from_str(indent);
        output.append("block");
        let ghost head = output@;
        let mut i: usize = 0;
        while i < self.get_length()
            invariant
                i <= self@.len(),
                further@ == deeper(indent@),
                "\n"@ == line_break(),
                output@ == head + block_lines(self@, i as int, further@),
            decreases self@.len() - i,
        {
            let line = self.get_statement(i).output(further.as_str());
            output.append("\n");
            output.append(line.as_str());
            i += 1;
            assert(output@ =~= head + block_lines(self@, i as int, further@));
        }
        output
    }
}

impl Operator {
    /// The sign of the operator at this indentation.
    pub fn output(&self, indent: &str) -> (text: String)
        ensures
            text@ == indent@ + operator_text(*self),
    {
        proof {
            reveal_strlit("+");
            reveal_strlit("-");
            reveal_strlit("*");
            reveal_strlit("/");
            assert("+"@ =~= seq!['+']);
            assert("-"@ =~= seq!['-']);
            assert("*"@ =~= seq!['*']);
            assert("/"@ =~= seq!['/']);
        }
        let mut output = String::from_str(indent);
        output.append(
            match self {
                Operator::Plus => "+",
                Operator::Minus => "-",
                Operator::Times => "*",
                Operator::Divides => "/",
            },
        );
        output
    }
}

impl Comparator {
    /// The sign of the comparator at this indentation.
    pub fn output(&self, indent: &str) -> (text: String)
        ensures
            text@ == indent@ + comparator_text(*self),
    {
        proof {
            reveal_strlit("==");
            reveal_strlit("!=");
            reveal_strlit(">");
            reveal_strlit(">=");
            reveal_strlit("<");
            reveal_strlit("<=");
            assert("=="@ =~= seq!['=', '=']);
            assert("!="@ =~= seq!['!', '=']);
            assert(">"@ =~= seq!['>']);
            assert(">="@ =~= seq!['>', '=']);
            assert("<"@ =~= seq!['<']);
            assert("<="@ =~= seq!['<', '=']);
        }
        let mut output = String::from_str(indent);
        output.append(
            match self {
                Comparator::Equal => "==",
                Comparator::NotEqual => "!=",
                Comparator::GreaterThan => ">",
                Comparator::GreaterThanOrEqual => ">=",
                Comparator::LessThan => "<",
                Comparator::LessThanOrEqual => "<=",
            },
        );
        output
    }
}

impl Statement {
    /// The printout of the statement at this indentation.
    pub fn output(&self, indent: &str) -> (text: String)
        ensures
            text@ == statement_text(self@, indent@),
        decreases self, 0nat,
    {
        proof {
            reveal_strlit("print\n");
            assert("print\n"@ =~= seq!['p', 'r', 'i', 'n', 't', '\n']);
            reveal_strlit("let\n");
            assert("let\n"@ =~= seq!['l', 'e', 't', '\n']);
            reveal_strlit("while\n");
            assert("while\n"@ =~= seq!['w', 'h', 'i', 'l', 'e', '\n']);
            reveal_strlit("\n");
            assert("\n"@ =~= line_break());
        }
        let further = indent_deeper(indent);
        let mut output = String::from_str(indent);
        match self {
            Statement::Print(expression) => {
                output.append("print\n");
                output.append(expression.output(further.as_str()).as_str());
            },
            Statement::Let(ident, expression) => {
                output.append("let\n");
                output.append(further.as_str());
                output.append(ident.symbol.as_str());
                output.append("\n");
                output.append(expression.output(further.as_str()).as_str());
            },
            Statement::If(if_statement) => {
                output.append(if_statement.output(indent).as_str());
            },
            Statement::While(condition, block) => {
                output.append("while\n");
                output.append(condition.output(further.as_str()).as_str());
                output.append("\n");
                output.append(block.output(further.as_str()).as_str());
            },
            Statement::Assignment(_, _) => {},
        }
        output
    }
}

impl IfStatement {
    /// The printout of the clause, and of the clauses behind it, at this
    /// indentation.
    pub fn output(&self, indent: &str) -> (text: String)
        ensures
            text@ == chain_text(self@, indent@),
        decreases self, 0nat,
    {
        proof {
            reveal_strlit("if\n");
            assert("if\n"@ =~= seq!['i', 'f', '\n']);
            reveal_strlit("elseif\n");
            assert("elseif\n"@ =~= seq!['e', 'l', 's', 'e', 'i', 'f', '\n']);
            reveal_strlit("else\n");
            assert("else\n"@ =~= seq!['e', 'l', 's', 'e', '\n']);
            reveal_strlit("\n");
            assert("\n"@ =~= line_break());
        }
        let further = indent_deeper(indent);
        let mut output = String::new();
        match self {
            IfStatement::If(condition, block, other) => {
                output.append("if\n");
                output.append(condition.output(further.as_str()).as_str());
                output.append("\n");
                output.append(block.output(further.as_str()).as_str());
                match other {
                    Some(if_statement) => {
                        output.append("\n");
                        output.append(if_statement.output(further.as_str()).as_str());
                    },
                    None => {},
                }
                assert(output@ =~= chain_text(self@, indent@));
            },
            IfStatement::ElseIf(condition, block, other) => {
                output.append(indent);
                output.append("elseif\n");
                output.append(condition.output(further.as_str()).as_str());
                output.append("\n");
                output.append(block.output(further.as_str()).as_str());
                match other {
                    Some(if_statement) => {
                        output.append("\n");
                        output.append(if_statement.output(further.as_str()).as_str());
                    },
                    None => {},
                }
                assert(output@ =~= chain_text(self@, indent@));
            },
            IfStatement::Else(block) => {
                output.append(indent);
                output.append("else\n");
                output.append(block.output(further.as_str()).as_str());
                assert(output@ =~= chain_text(self@, indent@));
            },
        }
        output
    }
}

impl Expression {
    /// The printout of the expression at this indentation.
    pub fn output(&self, indent: &str) -> (text: String)
        ensures
            text@ == expression_text(self@, indent@),
        decreases self, 1nat,
    {
        match self {
            Expression::BinaryOp(op) => op.output(indent),
            Expression::UnaryOp(op) => op.term.output(indent),
            Expression::Literal(literal) => literal.output(indent),
            Expression::Ident(ident) => {
                let mut output = String::from_str(indent);
                output.append(ident.symbol.as_str());
                output
            },
        }
    }
}

impl Condition {
    /// The printout of the condition at this indentation.
    pub fn output(&self, indent: &str) -> (text: String)
        ensures
            text@ == condition_text(self@, indent@),
    {
        proof {
            reveal_strlit("\n");
            assert("\n"@ =~= line_break());
        }
        let further = indent_deeper(indent);
        let mut output = self.comparator.output(indent);
        output.append("\n");
        output.append(self.left_expression.output(further.as_str()).as_str());
        output.append("\n");
        output.append(self.right_expression.output(further.as_str()).as_str());
        output
    }
}

impl BinaryOp {
    /// The printout of the operation at this indentation.
    pub fn output(&self, indent: &str) -> (text: String)
        ensures
            text@ == expression_text(self@, indent@),
        decreases self, 0nat,
    {
        proof {
            reveal_strlit("\n");
            assert("\n"@ =~= line_break());
        }
        let further = indent_deeper(indent);
        let mut output = self.operator.output(indent);
        output.append("\n");
        output.append(self.left_term.output(further.as_str()).as_str());
        output.append("\n");
        output.append(self.right_term.output(further.as_str()).as_str());
        output
    }
}

impl Literal {
    /// The text of the literal at this indentation.
    pub fn output(&self, indent: &str) -> (text: String)
        ensures
            text@ == literal_text(self@, indent@),
    {
        let mut output = String::from_str(indent);
        match self {
            Literal::String(s) => output.append(s.as_str()),
            Literal::Number(s) => output.append(s.as_str()),
        }
        output
    }
}

} // verus!
