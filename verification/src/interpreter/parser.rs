//! The parser: recursive descent over the tokens, with the current token and
//! one token of lookahead in hand.
//!
//! The spec functions of this module define, for a parser state, the tree
//! that is read from it and the state left behind, or the error; the
//! methods of [`Parser`] compute exactly that. What these functions accept
//! is said without reference to how they proceed in
//! [`crate::interpreter::grammar`] and [`crate::interpreter::complete`].

use vstd::prelude::*;
use crate::interpreter::ast::AbstractSyntaxTree;
use crate::interpreter::ast::BinaryOp;
use crate::interpreter::ast::Block;
use crate::interpreter::ast::Comparator;
use crate::interpreter::ast::Condition;
use crate::interpreter::ast::ConditionView;
use crate::interpreter::ast::Expression;
use crate::interpreter::ast::ExpressionView;
use crate::interpreter::ast::Ident;
use crate::interpreter::ast::IfStatement;
use crate::interpreter::ast::IfView;
use crate::interpreter::ast::Literal;
use crate::interpreter::ast::LiteralView;
use crate::interpreter::ast::Operator;
use crate::interpreter::ast::Statement;
use crate::interpreter::ast::StatementView;
use crate::interpreter::ast::UnaryOp;
use crate::interpreter::ast::clause_view;
use crate::interpreter::ast::statements_view;
use crate::interpreter::lexer::lemma_lex_advances;
use crate::interpreter::lexer::lex;
use crate::interpreter::lexer::token;
use crate::interpreter::lexer::LexError;
use crate::interpreter::lexer::Lexer;
use crate::interpreter::token::Token;
use crate::interpreter::token::TokenType;
use crate::interpreter::token::TokenView;

verus! {

/// Why a source text is no program.
#[derive(Debug, PartialEq, Eq, Clone, Copy, Structural)]
pub enum ParseError {
    /// The tokenizer failed on the token that would have become the
    /// lookahead.
    Lexical(LexError),
    /// A token of kind `expected` was required where `found` stands.
    UnexpectedToken { expected: TokenType, found: TokenType },
    /// No statement begins with a token of this kind.
    InvalidStatement { found: TokenType },
    /// A comparator was required between the two sides of a condition.
    ExpectedComparator { found: TokenType },
    /// A number or an identifier was required.
    ExpectedPrimary { found: TokenType },
    /// An `else` clause is followed by another clause.
    InvalidElse { found: TokenType },
}

/// What a parser is, as plain values: the source, the tokenizer's cursor,
/// and the two tokens in hand.
pub struct ParserView {
    pub input: Seq<char>,
    pub position: int,
    pub current: TokenView,
    pub next: TokenView,
}

/// The token that fills both places of the window before the first read.
pub open spec fn blank_token() -> TokenView {
    token(TokenType::ILLEGAL, Seq::empty())
}

/// Moves the window one token on: the lookahead becomes current and a new
/// lookahead is read.
pub open spec fn advance(p: ParserView) -> Result<ParserView, ParseError> {
    match lex(p.input, p.position) {
        Ok((token, end)) => Ok(
            ParserView { input: p.input, position: end, current: p.next, next: token },
        ),
        Err(e) => Err(ParseError::Lexical(e)),
    }
}

/// Moves on past a current token of the given kind.
pub open spec fn expect(p: ParserView, kind: TokenType) -> Result<ParserView, ParseError> {
    if p.current.kind == kind {
        advance(p)
    } else {
        Err(ParseError::UnexpectedToken { expected: kind, found: p.current.kind })
    }
}

/// How much is left to read: the characters behind the cursor and the
/// tokens in hand that are not the end token.
pub open spec fn pending(p: ParserView) -> nat {
    let characters = if 0 <= p.position <= p.input.len() {
        p.input.len() - p.position
    } else {
        0
    };
    let current: int = if p.current.kind != TokenType::EOF {
        1
    } else {
        0
    };
    let next: int = if p.next.kind != TokenType::EOF {
        1
    } else {
        0
    };
    (characters + current + next) as nat
}

/// `primary := NUMBER | IDENT`
pub open spec fn primary(p: ParserView) -> Result<(ExpressionView, ParserView), ParseError> {
    if p.current.kind == TokenType::NUMBER {
        match advance(p) {
            Ok(q) => Ok((ExpressionView::Literal(LiteralView::Number(p.current.text)), q)),
            Err(e) => Err(e),
        }
    } else if p.current.kind == TokenType::IDENT {
        match advance(p) {
            Ok(q) => Ok((ExpressionView::Ident(p.current.text), q)),
            Err(e) => Err(e),
        }
    } else {
        Err(ParseError::ExpectedPrimary { found: p.current.kind })
    }
}

/// The sign that a token of this kind is, if it is one.
pub open spec fn sign_of(kind: TokenType) -> Option<Operator> {
    match kind {
        TokenType::PLUS => Some(Operator::Plus),
        TokenType::MINUS => Some(Operator::Minus),
        _ => None,
    }
}

/// The multiplying operator that a token of this kind is, if it is one.
pub open spec fn factor_of(kind: TokenType) -> Option<Operator> {
    match kind {
        TokenType::ASTERISK => Some(Operator::Times),
        TokenType::SLASH => Some(Operator::Divides),
        _ => None,
    }
}

/// The comparator that a token of this kind is, if it is one.
pub open spec fn comparator_of(kind: TokenType) -> Option<Comparator> {
    match kind {
        TokenType::EQEQ => Some(Comparator::Equal),
        TokenType::NOTEQ => Some(Comparator::NotEqual),
        TokenType::GT => Some(Comparator::GreaterThan),
        TokenType::GTEQ => Some(Comparator::GreaterThanOrEqual),
        TokenType::LT => Some(Comparator::LessThan),
        TokenType::LTEQ => Some(Comparator::LessThanOrEqual),
        _ => None,
    }
}

/// `unary := ("+"|"-")? primary`
pub open spec fn unary(p: ParserView) -> Result<(ExpressionView, ParserView), ParseError> {
    match sign_of(p.current.kind) {
        Some(sign) => match advance(p) {
            Ok(q) => match primary(q) {
                Ok((operand, r)) => Ok((ExpressionView::UnaryOp(sign, Box::new(operand)), r)),
                Err(e) => Err(e),
            },
            Err(e) => Err(e),
        },
        None => primary(p),
    }
}

/// `(("*"|"/") unary)*` behind a term read so far; each further operand is
/// joined to the left.
pub open spec fn term_rest(p: ParserView, left: ExpressionView) -> Result<
    (ExpressionView, ParserView),
    ParseError,
>
    decreases pending(p),
{
    match factor_of(p.current.kind) {
        Some(operator) => match advance(p) {
            Ok(q) => match unary(q) {
                Ok((right, r)) => {
                    proof {
                        lemma_advance_pending(p);
                        lemma_unary_progress(q);
                    }
                    term_rest(
                        r,
                        ExpressionView::BinaryOp(Box::new(left), operator, Box::new(right)),
                    )
                },
                Err(e) => Err(e),
            },
            Err(e) => Err(e),
        },
        None => Ok((left, p)),
    }
}

/// `term := unary (("*"|"/") unary)*`
pub open spec fn term(p: ParserView) -> Result<(ExpressionView, ParserView), ParseError> {
    match unary(p) {
        Ok((first, q)) => term_rest(q, first),
        Err(e) => Err(e),
    }
}

/// `(("+"|"-") term)*` behind an expression read so far; each further term
/// is joined to the left.
pub open spec fn expression_rest(p: ParserView, left: ExpressionView) -> Result<
    (ExpressionView, ParserView),
    ParseError,
>
    decreases pending(p),
{
    match sign_of(p.current.kind) {
        Some(operator) => match advance(p) {
            Ok(q) => match term(q) {
                Ok((right, r)) => {
                    proof {
                        lemma_advance_pending(p);
                        lemma_term_progress(q);
                    }
                    expression_rest(
                        r,
                        ExpressionView::BinaryOp(Box::new(left), operator, Box::new(right)),
                    )
                },
                Err(e) => Err(e),
            },
            Err(e) => Err(e),
        },
        None => Ok((left, p)),
    }
}

/// `expression := STRING | term (("+"|"-") term)*`
pub open spec fn expression(p: ParserView) -> Result<(ExpressionView, ParserView), ParseError> {
    if p.current.kind == TokenType::STRING {
        match advance(p) {
            Ok(q) => Ok((ExpressionView::Literal(LiteralView::String(p.current.text)), q)),
            Err(e) => Err(e),
        }
    } else {
        match term(p) {
            Ok((first, q)) => expression_rest(q, first),
            Err(e) => Err(e),
        }
    }
}

/// `condition := expression comparator expression`
pub open spec fn condition(p: ParserView) -> Result<(ConditionView, ParserView), ParseError> {
    match expression(p) {
        Ok((left, q)) => match comparator_of(q.current.kind) {
            Some(comparator) => match advance(q) {
                Ok(r) => match expression(r) {
                    Ok((right, s)) => Ok((ConditionView { left, comparator, right }, s)),
                    Err(e) => Err(e),
                },
                Err(e) => Err(e),
            },
            None => Err(ParseError::ExpectedComparator { found: q.current.kind }),
        },
        Err(e) => Err(e),
    }
}

/// `"=" expression ";"` behind the name of a declaration or assignment.
pub open spec fn binding(p: ParserView) -> Result<(ExpressionView, ParserView), ParseError> {
    match expect(p, TokenType::EQ) {
        Ok(q) => match expression(q) {
            Ok((value, r)) => match expect(r, TokenType::SEMICOLON) {
                Ok(s) => Ok((value, s)),
                Err(e) => Err(e),
            },
            Err(e) => Err(e),
        },
        Err(e) => Err(e),
    }
}

/// Whether a token of this kind opens a clause of a conditional.
pub open spec fn opens_clause(kind: TokenType) -> bool {
    kind == TokenType::IF || kind == TokenType::ELSEIF || kind == TokenType::ELSE
}

/// Whether a token of this kind continues a conditional behind a clause.
pub open spec fn continues_chain(kind: TokenType) -> bool {
    kind == TokenType::ELSEIF || kind == TokenType::ELSE
}

/// One statement.
///
/// ```text
/// statement := "print" expression ";"
///            | "let" IDENT "=" expression ";"
///            | IDENT "=" expression ";"
///            | clause
///            | "while" condition "then" statement* "end"
/// ```
pub open spec fn statement(p: ParserView) -> Result<(StatementView, ParserView), ParseError>
    decreases pending(p), 2int,
{
    match p.current.kind {
        TokenType::PRINT => match advance(p) {
            Ok(q) => match expression(q) {
                Ok((value, r)) => match expect(r, TokenType::SEMICOLON) {
                    Ok(s) => Ok((StatementView::Print(value), s)),
                    Err(e) => Err(e),
                },
                Err(e) => Err(e),
            },
            Err(e) => Err(e),
        },
        TokenType::LET => match advance(p) {
            Ok(q) => match expect(q, TokenType::IDENT) {
                Ok(r) => match binding(r) {
                    Ok((value, s)) => Ok((StatementView::Let(q.current.text, value), s)),
                    Err(e) => Err(e),
                },
                Err(e) => Err(e),
            },
            Err(e) => Err(e),
        },
        TokenType::IDENT => match advance(p) {
            Ok(q) => match binding(q) {
                Ok((value, r)) => Ok((StatementView::Assignment(p.current.text, value), r)),
                Err(e) => Err(e),
            },
            Err(e) => Err(e),
        },
        TokenType::IF => match clause(p) {
            Ok((chain, q)) => Ok((StatementView::If(chain), q)),
            Err(e) => Err(e),
        },
        TokenType::WHILE => while_loop(p),
        _ => Err(ParseError::InvalidStatement { found: p.current.kind }),
    }
}

/// `"while" condition "then" statement* "end"`, with `while` as the current
/// token.
pub open spec fn while_loop(p: ParserView) -> Result<(StatementView, ParserView), ParseError>
    decreases pending(p), 1int,
{
    if p.current.kind != TokenType::WHILE {
        Err(ParseError::InvalidStatement { found: p.current.kind })
    } else {
        match advance(p) {
            Ok(q) => match condition(q) {
                Ok((test, r)) => match expect(r, TokenType::THEN) {
                    Ok(s) => {
                        proof {
                            lemma_advance_pending(p);
                            lemma_condition_progress(q);
                            lemma_expect_pending(r, TokenType::THEN);
                        }
                        match body(s, TokenType::WHILE, Seq::empty()) {
                            Ok((statements, _, t)) => match expect(t, TokenType::END) {
                                Ok(u) => Ok((StatementView::While(test, statements), u)),
                                Err(e) => Err(e),
                            },
                            Err(e) => Err(e),
                        }
                    },
                    Err(e) => Err(e),
                },
                Err(e) => Err(e),
            },
            Err(e) => Err(e),
        }
    }
}

/// One clause of a conditional, with the clauses behind it.
///
/// ```text
/// clause := ("if"|"elseif") condition "then" statement* clause?
///         | "else" statement*
/// ```
///
/// The clause that `if` opens also takes the `end` that closes the whole
/// conditional; the clauses behind it stop in front of that `end`.
pub open spec fn clause(p: ParserView) -> Result<(IfView, ParserView), ParseError>
    decreases pending(p), 1int,
{
    let opener = p.current.kind;
    if !opens_clause(opener) {
        Err(ParseError::InvalidStatement { found: opener })
    } else {
        match advance(p) {
            Ok(q) => if opener == TokenType::ELSE {
                proof {
                    lemma_advance_pending(p);
                }
                match body(q, opener, Seq::empty()) {
                    Ok((statements, _, r)) => Ok((IfView::Else(statements), r)),
                    Err(e) => Err(e),
                }
            } else {
                match condition(q) {
                    Ok((test, r)) => match expect(r, TokenType::THEN) {
                        Ok(s) => {
                            proof {
                                lemma_advance_pending(p);
                                lemma_condition_progress(q);
                                lemma_expect_pending(r, TokenType::THEN);
                            }
                            match body(s, opener, Seq::empty()) {
                                Ok((statements, other, t)) => if opener == TokenType::IF {
                                    match expect(t, TokenType::END) {
                                        Ok(u) => Ok((IfView::If(test, statements, other), u)),
                                        Err(e) => Err(e),
                                    }
                                } else {
                                    Ok((IfView::ElseIf(test, statements, other), t))
                                },
                                Err(e) => Err(e),
                            }
                        },
                        Err(e) => Err(e),
                    },
                    Err(e) => Err(e),
                }
            },
            Err(e) => Err(e),
        }
    }
}

/// The statements of a body, behind those read so far, up to the `end` that
/// stops it, which is left in place. `opener` is the kind of the token that
/// opened the body. In the body of an `if` or `elseif` clause an `elseif` or
/// `else` begins the rest of the conditional, which is read as well and
/// ends the body; in the body of an `else` clause it is an error.
///
/// A statement always takes at least one token (see
/// [`lemma_statement_progress`]), so the body never stops for want of
/// progress.
pub open spec fn body(p: ParserView, opener: TokenType, done: Seq<StatementView>) -> Result<
    (Seq<StatementView>, Option<Box<IfView>>, ParserView),
    ParseError,
>
    decreases pending(p), 3int,
{
    if p.current.kind == TokenType::END {
        Ok((done, None, p))
    } else if continues_chain(p.current.kind) && opener == TokenType::ELSE {
        Err(ParseError::InvalidElse { found: p.current.kind })
    } else if continues_chain(p.current.kind) && opener != TokenType::WHILE {
        match clause(p) {
            Ok((other, q)) => Ok((done, Some(Box::new(other)), q)),
            Err(e) => Err(e),
        }
    } else {
        match statement(p) {
            Ok((next, q)) => if pending(q) < pending(p) {
                body(q, opener, done.push(next))
            } else {
                Ok((done.push(next), None, q))
            },
            Err(e) => Err(e),
        }
    }
}

/// `program := statement* EOF`, behind the statements read so far.
pub open spec fn program(p: ParserView, done: Seq<StatementView>) -> Result<
    (Seq<StatementView>, ParserView),
    ParseError,
>
    decreases pending(p),
{
    if p.current.kind == TokenType::EOF {
        Ok((done, p))
    } else {
        match statement(p) {
            Ok((next, q)) => {
                proof {
                    lemma_statement_progress(p);
                }
                program(q, done.push(next))
            },
            Err(e) => Err(e),
        }
    }
}

/// The program read by a parser whose window has not been filled yet: two
/// tokens are read into the window, then statements up to the end token.
pub open spec fn parse_spec(p: ParserView) -> Result<(Seq<StatementView>, ParserView), ParseError> {
    match advance(p) {
        Ok(q) => match advance(q) {
            Ok(r) => program(r, Seq::empty()),
            Err(e) => Err(e),
        },
        Err(e) => Err(e),
    }
}

/// Moving the window on never leaves more to read, and leaves less when the
/// token that drops out is not the end token.
pub proof fn lemma_advance_pending(p: ParserView)
    ensures
        advance(p) matches Ok(q) ==> {
            &&& q.input == p.input
            &&& pending(q) <= pending(p)
            &&& p.current.kind != TokenType::EOF ==> pending(q) < pending(p)
        },
{
    if 0 <= p.position <= p.input.len() {
        lemma_lex_advances(p.input, p.position);
    }
}

/// Moving past an expected token leaves less to read.
pub proof fn lemma_expect_pending(p: ParserView, kind: TokenType)
    ensures
        expect(p, kind) matches Ok(q) ==> {
            &&& q.input == p.input
            &&& pending(q) <= pending(p)
            &&& kind != TokenType::EOF ==> pending(q) < pending(p)
        },
{
    lemma_advance_pending(p);
}

proof fn lemma_primary_progress(p: ParserView)
    ensures
        primary(p) matches Ok((_, q)) ==> q.input == p.input && pending(q) < pending(p),
{
    lemma_advance_pending(p);
}

/// A sign with its operand takes at least one token.
pub proof fn lemma_unary_progress(p: ParserView)
    ensures
        unary(p) matches Ok((_, q)) ==> q.input == p.input && pending(q) < pending(p),
{
    lemma_advance_pending(p);
    lemma_primary_progress(p);
    if let Ok(q) = advance(p) {
        lemma_primary_progress(q);
    }
}

proof fn lemma_term_rest_pending(p: ParserView, left: ExpressionView)
    ensures
        term_rest(p, left) matches Ok((_, q)) ==> q.input == p.input && pending(q) <= pending(p),
    decreases pending(p),
{
    if factor_of(p.current.kind) is Some {
        lemma_advance_pending(p);
        if let Ok(q) = advance(p) {
            lemma_unary_progress(q);
            if let Ok((right, r)) = unary(q) {
                lemma_term_rest_pending(
                    r,
                    ExpressionView::BinaryOp(
                        Box::new(left),
                        factor_of(p.current.kind)->0,
                        Box::new(right),
                    ),
                );
            }
        }
    }
}

/// A term takes at least one token.
pub proof fn lemma_term_progress(p: ParserView)
    ensures
        term(p) matches Ok((_, q)) ==> q.input == p.input && pending(q) < pending(p),
{
    lemma_unary_progress(p);
    if let Ok((first, q)) = unary(p) {
        lemma_term_rest_pending(q, first);
    }
}

proof fn lemma_expression_rest_pending(p: ParserView, left: ExpressionView)
    ensures
        expression_rest(p, left) matches Ok((_, q)) ==> q.input == p.input && pending(q)
            <= pending(p),
    decreases pending(p),
{
    if sign_of(p.current.kind) is Some {
        lemma_advance_pending(p);
        if let Ok(q) = advance(p) {
            lemma_term_progress(q);
            if let Ok((right, r)) = term(q) {
                lemma_expression_rest_pending(
                    r,
                    ExpressionView::BinaryOp(
                        Box::new(left),
                        sign_of(p.current.kind)->0,
                        Box::new(right),
                    ),
                );
            }
        }
    }
}

/// An expression takes at least one token.
pub proof fn lemma_expression_progress(p: ParserView)
    ensures
        expression(p) matches Ok((_, q)) ==> q.input == p.input && pending(q) < pending(p),
{
    lemma_advance_pending(p);
    lemma_term_progress(p);
    if let Ok((first, q)) = term(p) {
        lemma_expression_rest_pending(q, first);
    }
}

/// A condition takes at least one token.
pub proof fn lemma_condition_progress(p: ParserView)
    ensures
        condition(p) matches Ok((_, q)) ==> q.input == p.input && pending(q) < pending(p),
{
    lemma_expression_progress(p);
    if let Ok((_, q)) = expression(p) {
        lemma_advance_pending(q);
        if let Ok(r) = advance(q) {
            lemma_expression_progress(r);
        }
    }
}

proof fn lemma_binding_progress(p: ParserView)
    ensures
        binding(p) matches Ok((_, q)) ==> q.input == p.input && pending(q) < pending(p),
{
    lemma_expect_pending(p, TokenType::EQ);
    if let Ok(q) = expect(p, TokenType::EQ) {
        lemma_expression_progress(q);
        if let Ok((_, r)) = expression(q) {
            lemma_expect_pending(r, TokenType::SEMICOLON);
        }
    }
}

/// A statement takes at least one token.
pub proof fn lemma_statement_progress(p: ParserView)
    ensures
        statement(p) matches Ok((_, q)) ==> q.input == p.input && pending(q) < pending(p),
    decreases pending(p), 2int,
{
    lemma_advance_pending(p);
    match p.current.kind {
        TokenType::PRINT => {
            if let Ok(q) = advance(p) {
                lemma_expression_progress(q);
                if let Ok((_, r)) = expression(q) {
                    lemma_expect_pending(r, TokenType::SEMICOLON);
                }
            }
        },
        TokenType::LET => {
            if let Ok(q) = advance(p) {
                lemma_expect_pending(q, TokenType::IDENT);
                if let Ok(r) = expect(q, TokenType::IDENT) {
                    lemma_binding_progress(r);
                }
            }
        },
        TokenType::IDENT => {
            if let Ok(q) = advance(p) {
                lemma_binding_progress(q);
            }
        },
        TokenType::IF => {
            lemma_clause_progress(p);
        },
        TokenType::WHILE => {
            lemma_while_loop_progress(p);
        },
        _ => {},
    }
}

/// A loop takes at least the token that opens it.
pub proof fn lemma_while_loop_progress(p: ParserView)
    ensures
        while_loop(p) matches Ok((_, q)) ==> q.input == p.input && pending(q) < pending(p),
    decreases pending(p), 1int,
{
    if p.current.kind == TokenType::WHILE {
        lemma_advance_pending(p);
        if let Ok(q) = advance(p) {
            lemma_condition_progress(q);
            if let Ok((_, r)) = condition(q) {
                lemma_expect_pending(r, TokenType::THEN);
                if let Ok(s) = expect(r, TokenType::THEN) {
                    lemma_body_pending(s, TokenType::WHILE, Seq::empty());
                    if let Ok((_, _, t)) = body(s, TokenType::WHILE, Seq::empty()) {
                        lemma_expect_pending(t, TokenType::END);
                    }
                }
            }
        }
    }
}

/// A clause takes at least the token that opens it, and the clauses behind
/// an `if` or `elseif` stop in front of an `end`.
pub proof fn lemma_clause_progress(p: ParserView)
    ensures
        clause(p) matches Ok((_, q)) ==> {
            &&& q.input == p.input
            &&& pending(q) < pending(p)
            &&& p.current.kind != TokenType::IF ==> q.current.kind == TokenType::END
        },
    decreases pending(p), 1int,
{
    let opener = p.current.kind;
    if opens_clause(opener) {
        lemma_advance_pending(p);
        if let Ok(q) = advance(p) {
            if opener == TokenType::ELSE {
                lemma_body_pending(q, opener, Seq::empty());
            } else {
                lemma_condition_progress(q);
                if let Ok((_, r)) = condition(q) {
                    lemma_expect_pending(r, TokenType::THEN);
                    if let Ok(s) = expect(r, TokenType::THEN) {
                        lemma_body_pending(s, opener, Seq::empty());
                        if let Ok((_, _, t)) = body(s, opener, Seq::empty()) {
                            lemma_expect_pending(t, TokenType::END);
                        }
                    }
                }
            }
        }
    }
}

/// A body stops in front of an `end`, and only a body of an `if` or
/// `elseif` clause has further clauses behind it.
pub proof fn lemma_body_pending(p: ParserView, opener: TokenType, done: Seq<StatementView>)
    ensures
        body(p, opener, done) matches Ok((_, other, q)) ==> {
            &&& q.input == p.input
            &&& pending(q) <= pending(p)
            &&& q.current.kind == TokenType::END
            &&& other is Some ==> opener != TokenType::WHILE && opener != TokenType::ELSE
        },
    decreases pending(p), 3int,
{
    if p.current.kind == TokenType::END {
    } else if continues_chain(p.current.kind) && opener == TokenType::ELSE {
    } else if continues_chain(p.current.kind) && opener != TokenType::WHILE {
        lemma_clause_progress(p);
    } else {
        lemma_statement_progress(p);
        if let Ok((next, q)) = statement(p) {
            lemma_body_pending(q, opener, done.push(next));
        }
    }
}

/// A parser over the tokens of a source text.
pub struct Parser {
    lexer: Lexer,
    current_token: Token,
    next_token: Token,
}

impl View for Parser {
    type V = ParserView;

    closed spec fn view(&self) -> ParserView {
        ParserView {
            input: self.lexer@.input,
            position: self.lexer@.position,
            current: self.current_token@,
            next: self.next_token@,
        }
    }
}

impl Parser {
    /// A parser that will read from `lexer`. Its window is blank until
    /// [`Parser::parse`] fills it.
    pub fn new(lexer: Lexer) -> (parser: Parser)
        ensures
            parser@ == (ParserView {
                input: lexer@.input,
                position: lexer@.position,
                current: blank_token(),
                next: blank_token(),
            }),
    {
        Parser {
            lexer: lexer,
            current_token: Token::new(TokenType::ILLEGAL, String::new()),
            next_token: Token::new(TokenType::ILLEGAL, String::new()),
        }
    }

    /// Reads the whole program. The first violation of the grammar, or the
    /// first failure of the tokenizer on a token that the parser asks for,
    /// ends the parse with its error: no tree is returned, and the parser is
    /// left as it was before the call. After a success the parser stands at
    /// the end token.
    pub fn parse(&mut self) -> (result: Result<AbstractSyntaxTree, ParseError>)
        ensures
            match parse_spec(old(self)@) {
                Ok((statements, q)) => result matches Ok(tree) && tree@ == statements
                    && final(self)@ == q,
                Err(e) => result matches Err(x) && x == e && final(self)@ == old(self)@,
            },
    {
        let position = self.lexer.position();
        let current_token = self.current_token.clone();
        let next_token = self.next_token.clone();
        match self.parse_window() {
            Ok(tree) => Ok(tree),
            Err(e) => {
                self.lexer.seek(position);
                self.current_token = current_token;
                self.next_token = next_token;
                Err(e)
            },
        }
    }

    /// Fills the window and reads the program.
    fn parse_window(&mut self) -> (result: Result<AbstractSyntaxTree, ParseError>)
        ensures
            final(self)@.input == old(self)@.input,
            match parse_spec(old(self)@) {
                Ok((statements, q)) => result matches Ok(tree) && tree@ == statements
                    && final(self)@ == q,
                Err(e) => result matches Err(x) && x == e,
            },
    {
        // Two reads fill the window: the current token and the lookahead.
        self.process_next()?;
        self.process_next()?;
        let block = self.parse_program()?;
        Ok(AbstractSyntaxTree::new(block))
    }

    fn parse_program(&mut self) -> (result: Result<Block, ParseError>)
        ensures
            final(self)@.input == old(self)@.input,
            match program(old(self)@, Seq::empty()) {
                Ok((statements, q)) => result matches Ok(block) && block@ == statements && final(self)@ == q,
                Err(e) => result matches Err(x) && x == e,
            },
    {
        let ghost start = self@;
        let mut statements: Vec<Statement> = Vec::new();
        assert(statements_view(statements@) =~= Seq::empty());
        while !self.check_token(&TokenType::EOF)
            invariant
                start == old(self)@,
                self@.input == start.input,
                program(start, Seq::empty()) == program(self@, statements_view(statements@)),
            decreases pending(self@),
        {
            let ghost before = self@;
            let ghost done = statements_view(statements@);
            proof {
                lemma_statement_progress(before);
            }
            let next = self.parse_statement()?;
            statements.push(next);
            assert(statements_view(statements@) =~= done.push(next@));
        }
        Ok(Block::new(statements))
    }

    fn parse_statement(&mut self) -> (result: Result<Statement, ParseError>)
        ensures
            final(self)@.input == old(self)@.input,
            match statement(old(self)@) {
                Ok((parsed, q)) => result matches Ok(found) && found@ == parsed && final(self)@
                    == q,
                Err(e) => result matches Err(x) && x == e,
            },
        decreases pending(old(self)@), 2int,
    {
        match *self.current_token.get_token_type() {
            TokenType::PRINT => {
                self.process_next()?;
                let value = self.parse_expression()?;
                self.match_token(TokenType::SEMICOLON)?;
                Ok(Statement::Print(value))
            },
            TokenType::LET => {
                self.process_next()?;
                let ident = Ident::new(String::from_str(self.current_token.get_token_text()));
                self.match_token(TokenType::IDENT)?;
                let value = self.parse_binding()?;
                Ok(Statement::Let(ident, value))
            },
            TokenType::IDENT => {
                let ident = Ident::new(String::from_str(self.current_token.get_token_text()));
                self.match_token(TokenType::IDENT)?;
                let value = self.parse_binding()?;
                Ok(Statement::Assignment(ident, value))
            },
            TokenType::IF => {
                let chain = self.parse_if()?;
                Ok(Statement::If(chain))
            },
            TokenType::WHILE => self.parse_while(),
            _ => Err(
                ParseError::InvalidStatement { found: *self.current_token.get_token_type() },
            ),
        }
    }

    /// Reads a loop, with `while` as the current token.
    fn parse_while(&mut self) -> (result: Result<Statement, ParseError>)
        requires
            old(self)@.current.kind == TokenType::WHILE,
        ensures
            final(self)@.input == old(self)@.input,
            match while_loop(old(self)@) {
                Ok((parsed, q)) => result matches Ok(found) && found@ == parsed && final(self)@
                    == q,
                Err(e) => result matches Err(x) && x == e,
            },
        decreases pending(old(self)@), 1int,
    {
        let ghost start = self@;
        self.process_next()?;
        let ghost q = self@;
        let condition = self.parse_condition()?;
        let ghost r = self@;
        self.match_token(TokenType::THEN)?;
        proof {
            lemma_advance_pending(start);
            lemma_condition_progress(q);
            lemma_expect_pending(r, TokenType::THEN);
        }
        let (statements, _) = self.parse_body(TokenType::WHILE)?;
        self.match_token(TokenType::END)?;
        Ok(Statement::While(condition, Block::new(statements)))
    }

    /// `"=" expression ";"`, behind the name of a declaration or assignment.
    fn parse_binding(&mut self) -> (result: Result<Expression, ParseError>)
        ensures
            final(self)@.input == old(self)@.input,
            match binding(old(self)@) {
                Ok((parsed, q)) => result matches Ok(found) && found@ == parsed && final(self)@
                    == q,
                Err(e) => result matches Err(x) && x == e,
            },
    {
        self.match_token(TokenType::EQ)?;
        let value = self.parse_expression()?;
        self.match_token(TokenType::SEMICOLON)?;
        Ok(value)
    }

    fn parse_condition(&mut self) -> (result: Result<Condition, ParseError>)
        ensures
            final(self)@.input == old(self)@.input,
            match condition(old(self)@) {
                Ok((parsed, q)) => result matches Ok(found) && found@ == parsed && final(self)@
                    == q,
                Err(e) => result matches Err(x) && x == e,
            },
    {
        let left_expression = self.parse_expression()?;
        let comparator = match *self.current_token.get_token_type() {
            TokenType::EQEQ => Comparator::Equal,
            TokenType::NOTEQ => Comparator::NotEqual,
            TokenType::GT => Comparator::GreaterThan,
            TokenType::GTEQ => Comparator::GreaterThanOrEqual,
            TokenType::LT => Comparator::LessThan,
            TokenType::LTEQ => Comparator::LessThanOrEqual,
            _ => {
                return Err(
                    ParseError::ExpectedComparator {
                        found: *self.current_token.get_token_type(),
                    },
                );
            },
        };
        self.process_next()?;
        let right_expression = self.parse_expression()?;
        Ok(Condition::new(left_expression, comparator, right_expression))
    }

    fn parse_expression(&mut self) -> (result: Result<Expression, ParseError>)
        ensures
            final(self)@.input == old(self)@.input,
            match expression(old(self)@) {
                Ok((parsed, q)) => result matches Ok(found) && found@ == parsed && final(self)@
                    == q,
                Err(e) => result matches Err(x) && x == e,
            },
    {
        if self.check_token(&TokenType::STRING) {
            let literal = Literal::String(String::from_str(self.current_token.get_token_text()));
            self.process_next()?;
            return Ok(Expression::Literal(literal));
        }
        let ghost start = self@;
        let mut left = self.parse_term()?;
        let ghost first = self@;
        let ghost first_term = left@;
        while self.check_token(&TokenType::PLUS) || self.check_token(&TokenType::MINUS)
            invariant
                start == old(self)@,
                start.current.kind != TokenType::STRING,
                term(start) == Ok::<(ExpressionView, ParserView), ParseError>((first_term, first)),
                self@.input == start.input,
                expression_rest(first, first_term) == expression_rest(self@, left@),
            decreases pending(self@),
        {
            let ghost before = self@;
            let operator = if self.check_token(&TokenType::PLUS) {
                Operator::Plus
            } else {
                Operator::Minus
            };
            self.process_next()?;
            proof {
                lemma_advance_pending(before);
                lemma_term_progress(self@);
            }
            let second_term = self.parse_term()?;
            left = Expression::BinaryOp(Box::new(BinaryOp::new(left, operator, second_term)));
        }
        Ok(left)
    }

    fn parse_term(&mut self) -> (result: Result<Expression, ParseError>)
        ensures
            final(self)@.input == old(self)@.input,
            match term(old(self)@) {
                Ok((parsed, q)) => result matches Ok(found) && found@ == parsed && final(self)@
                    == q,
                Err(e) => result matches Err(x) && x == e,
            },
    {
        let ghost start = self@;
        let mut left = self.parse_unary()?;
        let ghost first = self@;
        let ghost first_unary = left@;
        while self.check_token(&TokenType::SLASH) || self.check_token(&TokenType::ASTERISK)
            invariant
                start == old(self)@,
                unary(start) == Ok::<(ExpressionView, ParserView), ParseError>(
                    (first_unary, first),
                ),
                self@.input == start.input,
                term_rest(first, first_unary) == term_rest(self@, left@),
            decreases pending(self@),
        {
            let ghost before = self@;
            let operator = if self.check_token(&TokenType::ASTERISK) {
                Operator::Times
            } else {
                Operator::Divides
            };
            self.process_next()?;
            proof {
                lemma_advance_pending(before);
                lemma_unary_progress(self@);
            }
            let second_unary = self.parse_unary()?;
            left = Expression::BinaryOp(Box::new(BinaryOp::new(left, operator, second_unary)));
        }
        Ok(left)
    }

    fn parse_unary(&mut self) -> (result: Result<Expression, ParseError>)
        ensures
            final(self)@.input == old(self)@.input,
            match unary(old(self)@) {
                Ok((parsed, q)) => result matches Ok(found) && found@ == parsed && final(self)@
                    == q,
                Err(e) => result matches Err(x) && x == e,
            },
    {
        match *self.current_token.get_token_type() {
            TokenType::PLUS => {
                self.process_next()?;
                let operand = self.parse_primary()?;
                Ok(Expression::UnaryOp(Box::new(UnaryOp::new(Operator::Plus, operand))))
            },
            TokenType::MINUS => {
                self.process_next()?;
                let operand = self.parse_primary()?;
                Ok(Expression::UnaryOp(Box::new(UnaryOp::new(Operator::Minus, operand))))
            },
            _ => self.parse_primary(),
        }
    }

    fn parse_primary(&mut self) -> (result: Result<Expression, ParseError>)
        ensures
            final(self)@.input == old(self)@.input,
            match primary(old(self)@) {
                Ok((parsed, q)) => result matches Ok(found) && found@ == parsed && final(self)@
                    == q,
                Err(e) => result matches Err(x) && x == e,
            },
    {
        let found = match *self.current_token.get_token_type() {
            TokenType::NUMBER => {
                let number = String::from_str(self.current_token.get_token_text());
                Expression::Literal(Literal::Number(number))
            },
            TokenType::IDENT => {
                let ident = Ident::new(String::from_str(self.current_token.get_token_text()));
                Expression::Ident(ident)
            },
            _ => {
                return Err(
                    ParseError::ExpectedPrimary { found: *self.current_token.get_token_type() },
                );
            },
        };
        self.process_next()?;
        Ok(found)
    }

    /// Reads the clause that the current token opens, and the clauses behind
    /// it.
    fn parse_if(&mut self) -> (result: Result<IfStatement, ParseError>)
        ensures
            final(self)@.input == old(self)@.input,
            match clause(old(self)@) {
                Ok((parsed, q)) => result matches Ok(found) && found@ == parsed && final(self)@
                    == q,
                Err(e) => result matches Err(x) && x == e,
            },
        decreases pending(old(self)@), 1int,
    {
        let ghost start = self@;
        let current_token_type = *self.current_token.get_token_type();
        match current_token_type {
            TokenType::IF | TokenType::ELSEIF | TokenType::ELSE => {},
            _ => {
                return Err(ParseError::InvalidStatement { found: current_token_type });
            },
        }
        self.process_next()?;
        proof {
            lemma_advance_pending(start);
        }
        if current_token_type == TokenType::ELSE {
            let (statements, _) = self.parse_body(current_token_type)?;
            return Ok(IfStatement::Else(Block::new(statements)));
        }
        let ghost q = self@;
        let condition = self.parse_condition()?;
        let ghost r = self@;
        self.match_token(TokenType::THEN)?;
        proof {
            lemma_condition_progress(q);
            lemma_expect_pending(r, TokenType::THEN);
        }
        let (statements, other) = self.parse_body(current_token_type)?;
        // Only the clause that `if` opens takes the closing `end`.
        if current_token_type == TokenType::IF {
            self.match_token(TokenType::END)?;
            Ok(IfStatement::If(condition, Block::new(statements), other))
        } else {
            Ok(IfStatement::ElseIf(condition, Block::new(statements), other))
        }
    }

    /// Reads the statements of a body up to its `end`, and the rest of the
    /// conditional where the body belongs to an `if` or `elseif` clause and
    /// meets an `elseif` or `else`.
    fn parse_body(&mut self, opener: TokenType) -> (result: Result<
        (Vec<Statement>, Option<Box<IfStatement>>),
        ParseError,
    >)
        ensures
            final(self)@.input == old(self)@.input,
            match body(old(self)@, opener, Seq::empty()) {
                Ok((parsed, other, q)) => result matches Ok(found) && statements_view(found.0@)
                    == parsed && clause_view(found.1) == other && final(self)@ == q,
                Err(e) => result matches Err(x) && x == e,
            },
        decreases pending(old(self)@), 3int,
    {
        let ghost start = self@;
        let mut statements: Vec<Statement> = Vec::new();
        assert(statements_view(statements@) =~= Seq::empty());
        while !self.check_token(&TokenType::END)
            invariant
                start == old(self)@,
                self@.input == start.input,
                pending(self@) <= pending(start),
                body(start, opener, Seq::empty()) == body(
                    self@,
                    opener,
                    statements_view(statements@),
                ),
            decreases pending(self@),
        {
            let ghost before = self@;
            let ghost done = statements_view(statements@);
            if self.check_token(&TokenType::ELSEIF) || self.check_token(&TokenType::ELSE) {
                if opener == TokenType::ELSE {
                    return Err(
                        ParseError::InvalidElse { found: *self.current_token.get_token_type() },
                    );
                }
                if opener != TokenType::WHILE {
                    let other = self.parse_if()?;
                    return Ok((statements, Some(Box::new(other))));
                }
            }
            proof {
                lemma_statement_progress(before);
            }
            let next = self.parse_statement()?;
            statements.push(next);
            assert(statements_view(statements@) =~= done.push(next@));
        }
        Ok((statements, None))
    }

    fn process_next(&mut self) -> (result: Result<(), ParseError>)
        ensures
            final(self)@.input == old(self)@.input,
            match advance(old(self)@) {
                Ok(q) => result is Ok && final(self)@ == q,
                Err(e) => result matches Err(x) && x == e && final(self)@ == old(self)@,
            },
    {
        match self.lexer.get_token() {
            Ok(token) => {
                let mut token = token;
                std::mem::swap(&mut self.next_token, &mut token);
                self.current_token = token;
                Ok(())
            },
            Err(e) => Err(ParseError::Lexical(e)),
        }
    }

    fn match_token(&mut self, token_type: TokenType) -> (result: Result<(), ParseError>)
        ensures
            final(self)@.input == old(self)@.input,
            match expect(old(self)@, token_type) {
                Ok(q) => result is Ok && final(self)@ == q,
                Err(e) => result matches Err(x) && x == e && final(self)@ == old(self)@,
            },
    {
        if !self.check_token(&token_type) {
            return Err(
                ParseError::UnexpectedToken {
                    expected: token_type,
                    found: *self.current_token.get_token_type(),
                },
            );
        }
        self.process_next()
    }

    fn check_token(&self, token_type: &TokenType) -> (same: bool)
        ensures
            same == (self@.current.kind == *token_type),
    {
        *self.current_token.get_token_type() == *token_type
    }
}

} // verus!
