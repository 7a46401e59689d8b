//! The grammar, and that the parser reads by it.
//!
//! A tree has a spelling: the words it is written with, in order. The
//! grammar says which trees there are: operators of one level are joined to
//! the left, multiplication and division bind tighter than addition and
//! subtraction, a sign binds tightest, and a conditional is a chain that
//! begins with `if` and goes on with `elseif` clauses and at most one
//! `else`, at the end. The parser returns only trees of the grammar, and
//! what it has moved over when it returns one is the spelling of that tree.

use vstd::prelude::*;
use crate::interpreter::ast::Comparator;
use crate::interpreter::ast::ConditionView;
use crate::interpreter::ast::ExpressionView;
use crate::interpreter::ast::IfView;
use crate::interpreter::ast::LiteralView;
use crate::interpreter::ast::Operator;
use crate::interpreter::ast::StatementView;
use crate::interpreter::lexer::token;
use crate::interpreter::parser::advance;
use crate::interpreter::parser::binding;
use crate::interpreter::parser::body;
use crate::interpreter::parser::clause;
use crate::interpreter::parser::comparator_of;
use crate::interpreter::parser::condition;
use crate::interpreter::parser::continues_chain;
use crate::interpreter::parser::expect;
use crate::interpreter::parser::expression;
use crate::interpreter::parser::expression_rest;
use crate::interpreter::parser::factor_of;
use crate::interpreter::parser::lemma_statement_progress;
use crate::interpreter::parser::lemma_body_pending;
use crate::interpreter::parser::lemma_expect_pending;
use crate::interpreter::parser::lemma_condition_progress;
use crate::interpreter::parser::lemma_term_progress;
use crate::interpreter::parser::lemma_unary_progress;
use crate::interpreter::parser::lemma_advance_pending;
use crate::interpreter::parser::parse_spec;
use crate::interpreter::parser::pending;
use crate::interpreter::parser::primary;
use crate::interpreter::parser::program;
use crate::interpreter::parser::sign_of;
use crate::interpreter::parser::statement;
use crate::interpreter::parser::term;
use crate::interpreter::parser::term_rest;
use crate::interpreter::parser::unary;
use crate::interpreter::parser::while_loop;
use crate::interpreter::parser::ParseError;
use crate::interpreter::parser::ParserView;
use crate::interpreter::token::TokenType;
use crate::interpreter::token::TokenView;

verus! {

/// Whether the text of a token of this kind is part of what it says.
pub open spec fn carries_text(kind: TokenType) -> bool {
    kind == TokenType::NUMBER || kind == TokenType::IDENT || kind == TokenType::STRING
}

/// A word of a spelling that is a keyword or a sign: only its kind counts.
pub open spec fn mark(kind: TokenType) -> TokenView {
    token(kind, Seq::empty())
}

/// Whether a token is the given word: of its kind, and, for a number, a
/// name or a string, with its text.
pub open spec fn spells(found: TokenView, word: TokenView) -> bool {
    found.kind == word.kind && (carries_text(word.kind) ==> found.text == word.text)
}

/// Whether the parser, moving on from `p` token by token, passes over
/// exactly the given words and then stands at `q`.
pub open spec fn reads(p: ParserView, words: Seq<TokenView>, q: ParserView) -> bool
    decreases words.len(),
{
    if words.len() == 0 {
        p == q
    } else {
        spells(p.current, words[0]) && match advance(p) {
            Ok(next) => reads(next, words.drop_first(), q),
            Err(_) => false,
        }
    }
}

/// The kind of the token that an operator is written with.
pub open spec fn operator_kind(operator: Operator) -> TokenType {
    match operator {
        Operator::Plus => TokenType::PLUS,
        Operator::Minus => TokenType::MINUS,
        Operator::Times => TokenType::ASTERISK,
        Operator::Divides => TokenType::SLASH,
    }
}

/// The kind of the token that a comparator is written with.
pub open spec fn comparator_kind(comparator: Comparator) -> TokenType {
    match comparator {
        Comparator::Equal => TokenType::EQEQ,
        Comparator::NotEqual => TokenType::NOTEQ,
        Comparator::GreaterThan => TokenType::GT,
        Comparator::GreaterThanOrEqual => TokenType::GTEQ,
        Comparator::LessThan => TokenType::LT,
        Comparator::LessThanOrEqual => TokenType::LTEQ,
    }
}

/// The spelling of an expression: its leaves and operators from left to
/// right. There are no brackets.
pub open spec fn expression_words(expression: ExpressionView) -> Seq<TokenView>
    decreases expression,
{
    match expression {
        ExpressionView::Literal(LiteralView::String(text)) => seq![token(TokenType::STRING, text)],
        ExpressionView::Literal(LiteralView::Number(text)) => seq![token(TokenType::NUMBER, text)],
        ExpressionView::Ident(name) => seq![token(TokenType::IDENT, name)],
        ExpressionView::UnaryOp(sign, operand) => seq![mark(operator_kind(sign))]
            + expression_words(*operand),
        ExpressionView::BinaryOp(left, operator, right) => expression_words(*left) + seq![
            mark(operator_kind(operator)),
        ] + expression_words(*right),
    }
}

/// The spelling of a condition.
pub open spec fn condition_words(test: ConditionView) -> Seq<TokenView> {
    expression_words(test.left) + seq![mark(comparator_kind(test.comparator))] + expression_words(
        test.right,
    )
}

/// `"=" expression ";"`
pub open spec fn binding_words(value: ExpressionView) -> Seq<TokenView> {
    seq![mark(TokenType::EQ)] + expression_words(value) + seq![mark(TokenType::SEMICOLON)]
}

/// The spelling of a statement.
pub open spec fn statement_words(statement: StatementView) -> Seq<TokenView>
    decreases statement, 0nat,
{
    match statement {
        StatementView::Print(value) => seq![mark(TokenType::PRINT)] + expression_words(value)
            + seq![mark(TokenType::SEMICOLON)],
        StatementView::Let(name, value) => seq![
            mark(TokenType::LET),
            token(TokenType::IDENT, name),
        ] + binding_words(value),
        StatementView::Assignment(name, value) => seq![token(TokenType::IDENT, name)]
            + binding_words(value),
        StatementView::If(chain) => chain_words(chain) + seq![mark(TokenType::END)],
        StatementView::While(test, statements) => seq![mark(TokenType::WHILE)] + condition_words(
            test,
        ) + seq![mark(TokenType::THEN)] + block_words(statements, statements.len() as int)
            + seq![mark(TokenType::END)],
    }
}

/// The spelling of the clauses behind a clause.
pub open spec fn rest_words(other: Option<Box<IfView>>) -> Seq<TokenView>
    decreases other, 1nat,
{
    match other {
        Some(next) => chain_words(*next),
        None => Seq::empty(),
    }
}

/// The spelling of a clause and the clauses behind it, without the `end`
/// that closes the conditional.
pub open spec fn chain_words(chain: IfView) -> Seq<TokenView>
    decreases chain, 0nat,
{
    match chain {
        IfView::If(test, statements, other) => seq![mark(TokenType::IF)] + condition_words(test)
            + seq![mark(TokenType::THEN)] + block_words(statements, statements.len() as int)
            + rest_words(other),
        IfView::ElseIf(test, statements, other) => seq![mark(TokenType::ELSEIF)] + condition_words(
            test,
        ) + seq![mark(TokenType::THEN)] + block_words(statements, statements.len() as int)
            + rest_words(other),
        IfView::Else(statements) => seq![mark(TokenType::ELSE)] + block_words(
            statements,
            statements.len() as int,
        ),
    }
}

/// The spelling of the first `upto` statements of a block.
pub open spec fn block_words(statements: Seq<StatementView>, upto: int) -> Seq<TokenView>
    decreases statements, upto,
{
    if 0 < upto <= statements.len() {
        block_words(statements, upto - 1) + statement_words(statements[upto - 1])
    } else {
        Seq::empty()
    }
}

/// The spelling of a program.
pub open spec fn program_words(statements: Seq<StatementView>) -> Seq<TokenView> {
    block_words(statements, statements.len() as int)
}

/// `primary := NUMBER | IDENT`
pub open spec fn is_primary(expression: ExpressionView) -> bool {
    expression is Ident || expression matches ExpressionView::Literal(LiteralView::Number(_))
}

/// `unary := ("+"|"-")? primary`
pub open spec fn is_unary(expression: ExpressionView) -> bool {
    is_primary(expression) || (expression matches ExpressionView::UnaryOp(sign, operand) && (sign
        == Operator::Plus || sign == Operator::Minus) && is_primary(*operand))
}

/// `term := unary | term ("*"|"/") unary`
pub open spec fn is_term(expression: ExpressionView) -> bool
    decreases expression,
{
    is_unary(expression) || (expression matches ExpressionView::BinaryOp(left, operator, right)
        && (operator == Operator::Times || operator == Operator::Divides) && is_term(*left)
        && is_unary(*right))
}

/// `sum := term | sum ("+"|"-") term`
pub open spec fn is_sum(expression: ExpressionView) -> bool
    decreases expression,
{
    is_term(expression) || (expression matches ExpressionView::BinaryOp(left, operator, right)
        && (operator == Operator::Plus || operator == Operator::Minus) && is_sum(*left)
        && is_term(*right))
}

/// `expression := STRING | sum`
pub open spec fn is_expression(expression: ExpressionView) -> bool {
    is_sum(expression) || expression matches ExpressionView::Literal(LiteralView::String(_))
}

/// `condition := expression comparator expression`
pub open spec fn is_condition(test: ConditionView) -> bool {
    is_expression(test.left) && is_expression(test.right)
}

/// Whether a statement is one of the grammar, with all that it holds.
pub open spec fn is_statement(statement: StatementView) -> bool
    decreases statement, 0nat,
{
    match statement {
        StatementView::Print(value) => is_expression(value),
        StatementView::Let(_, value) => is_expression(value),
        StatementView::Assignment(_, value) => is_expression(value),
        StatementView::If(chain) => chain is If && is_chain(chain),
        StatementView::While(test, statements) => is_condition(test) && is_block(statements),
    }
}

/// Whether the clauses behind a clause are `elseif` clauses and then at
/// most one `else` clause.
pub open spec fn is_rest(other: Option<Box<IfView>>) -> bool
    decreases other, 1nat,
{
    match other {
        Some(next) => !(*next is If) && is_chain(*next),
        None => true,
    }
}

/// Whether a clause, with the clauses behind it, is one of the grammar.
pub open spec fn is_chain(chain: IfView) -> bool
    decreases chain, 0nat,
{
    match chain {
        IfView::If(test, statements, other) => is_condition(test) && is_block(statements)
            && is_rest(other),
        IfView::ElseIf(test, statements, other) => is_condition(test) && is_block(statements)
            && is_rest(other),
        IfView::Else(statements) => is_block(statements),
    }
}

/// Whether every statement of a block is one of the grammar.
pub open spec fn is_block(statements: Seq<StatementView>) -> bool
    decreases statements, 2nat,
{
    forall|i: int| 0 <= i < statements.len() ==> is_statement(#[trigger] statements[i])
}

/// Moving over one token reads the word that the token is.
pub proof fn lemma_reads_one(p: ParserView, word: TokenView)
    requires
        spells(p.current, word),
        advance(p) is Ok,
    ensures
        reads(p, seq![word], advance(p)->Ok_0),
{
    let one = seq![word];
    assert(one.drop_first() =~= Seq::<TokenView>::empty());
    assert(one[0] == word);
    reveal_with_fuel(reads, 2);
}

/// What is read in two goes is read in one.
pub proof fn lemma_reads_concat(
    p: ParserView,
    first: Seq<TokenView>,
    middle: ParserView,
    second: Seq<TokenView>,
    q: ParserView,
)
    requires
        reads(p, first, middle),
        reads(middle, second, q),
    ensures
        reads(p, first + second, q),
    decreases first.len(),
{
    if first.len() == 0 {
        assert(first + second =~= second);
    } else {
        let next = advance(p)->Ok_0;
        lemma_reads_concat(next, first.drop_first(), middle, second, q);
        assert((first + second).drop_first() =~= first.drop_first() + second);
        assert((first + second)[0] == first[0]);
    }
}

/// Reading on by one token.
proof fn lemma_reads_more(
    p: ParserView,
    words: Seq<TokenView>,
    middle: ParserView,
    word: TokenView,
)
    requires
        reads(p, words, middle),
        spells(middle.current, word),
        advance(middle) is Ok,
    ensures
        reads(p, words + seq![word], advance(middle)->Ok_0),
{
    lemma_reads_one(middle, word);
    lemma_reads_concat(p, words, middle, seq![word], advance(middle)->Ok_0);
}

proof fn lemma_reads_nothing(p: ParserView)
    ensures
        reads(p, Seq::empty(), p),
{
}

proof fn lemma_expect_reads(p: ParserView, kind: TokenType)
    requires
        !carries_text(kind),
    ensures
        expect(p, kind) matches Ok(q) ==> reads(p, seq![mark(kind)], q),
{
    if expect(p, kind) is Ok {
        lemma_reads_one(p, mark(kind));
    }
}

proof fn lemma_primary_reads(p: ParserView)
    ensures
        primary(p) matches Ok((found, q)) ==> is_primary(found) && reads(
            p,
            expression_words(found),
            q,
        ),
{
    if let Ok((found, q)) = primary(p) {
        if p.current.kind == TokenType::NUMBER {
            lemma_reads_one(p, token(TokenType::NUMBER, p.current.text));
        } else {
            lemma_reads_one(p, token(TokenType::IDENT, p.current.text));
        }
    }
}

proof fn lemma_unary_reads(p: ParserView)
    ensures
        unary(p) matches Ok((found, q)) ==> is_unary(found) && reads(
            p,
            expression_words(found),
            q,
        ),
{
    if let Ok((found, q)) = unary(p) {
        match sign_of(p.current.kind) {
            Some(sign) => {
                let after = advance(p)->Ok_0;
                lemma_reads_one(p, mark(operator_kind(sign)));
                lemma_primary_reads(after);
                let operand = primary(after)->Ok_0.0;
                lemma_reads_concat(
                    p,
                    seq![mark(operator_kind(sign))],
                    after,
                    expression_words(operand),
                    q,
                );
            },
            None => {
                lemma_primary_reads(p);
            },
        }
    }
}

proof fn lemma_term_rest_reads(start: ParserView, p: ParserView, left: ExpressionView)
    requires
        is_term(left),
        reads(start, expression_words(left), p),
    ensures
        term_rest(p, left) matches Ok((found, q)) ==> is_term(found) && reads(
            start,
            expression_words(found),
            q,
        ),
    decreases pending(p),
{
    if let Ok((found, q)) = term_rest(p, left) {
        match factor_of(p.current.kind) {
            Some(operator) => {
                let after = advance(p)->Ok_0;
                let (right, r) = unary(after)->Ok_0;
                lemma_advance_pending(p);
                lemma_unary_progress(after);
                lemma_reads_more(start, expression_words(left), p, mark(operator_kind(operator)));
                lemma_unary_reads(after);
                lemma_reads_concat(
                    start,
                    expression_words(left) + seq![mark(operator_kind(operator))],
                    after,
                    expression_words(right),
                    r,
                );
                let joined = ExpressionView::BinaryOp(Box::new(left), operator, Box::new(right));
                lemma_term_rest_reads(start, r, joined);
            },
            None => {},
        }
    }
}

proof fn lemma_term_reads(p: ParserView)
    ensures
        term(p) matches Ok((found, q)) ==> is_term(found) && reads(p, expression_words(found), q),
{
    if let Ok((first, q)) = unary(p) {
        lemma_unary_reads(p);
        lemma_term_rest_reads(p, q, first);
    }
}

proof fn lemma_expression_rest_reads(start: ParserView, p: ParserView, left: ExpressionView)
    requires
        is_sum(left),
        reads(start, expression_words(left), p),
    ensures
        expression_rest(p, left) matches Ok((found, q)) ==> is_sum(found) && reads(
            start,
            expression_words(found),
            q,
        ),
    decreases pending(p),
{
    if let Ok((found, q)) = expression_rest(p, left) {
        match sign_of(p.current.kind) {
            Some(operator) => {
                let after = advance(p)->Ok_0;
                let (right, r) = term(after)->Ok_0;
                lemma_advance_pending(p);
                lemma_term_progress(after);
                lemma_reads_more(start, expression_words(left), p, mark(operator_kind(operator)));
                lemma_term_reads(after);
                lemma_reads_concat(
                    start,
                    expression_words(left) + seq![mark(operator_kind(operator))],
                    after,
                    expression_words(right),
                    r,
                );
                let joined = ExpressionView::BinaryOp(Box::new(left), operator, Box::new(right));
                lemma_expression_rest_reads(start, r, joined);
            },
            None => {},
        }
    }
}

/// An expression that the parser returns is one of the grammar, and the
/// parser has moved over its spelling.
pub proof fn lemma_expression_reads(p: ParserView)
    ensures
        expression(p) matches Ok((found, q)) ==> is_expression(found) && reads(
            p,
            expression_words(found),
            q,
        ),
{
    if let Ok((found, q)) = expression(p) {
        if p.current.kind == TokenType::STRING {
            lemma_reads_one(p, token(TokenType::STRING, p.current.text));
        } else {
            let (first, r) = term(p)->Ok_0;
            lemma_term_reads(p);
            lemma_expression_rest_reads(p, r, first);
        }
    }
}

/// A condition that the parser returns is one of the grammar, and the
/// parser has moved over its spelling.
pub proof fn lemma_condition_reads(p: ParserView)
    ensures
        condition(p) matches Ok((found, q)) ==> is_condition(found) && reads(
            p,
            condition_words(found),
            q,
        ),
{
    if let Ok((found, q)) = condition(p) {
        let (left, a) = expression(p)->Ok_0;
        let comparator = comparator_of(a.current.kind)->0;
        let b = advance(a)->Ok_0;
        let (right, c) = expression(b)->Ok_0;
        lemma_expression_reads(p);
        lemma_reads_more(p, expression_words(left), a, mark(comparator_kind(comparator)));
        lemma_expression_reads(b);
        lemma_reads_concat(
            p,
            expression_words(left) + seq![mark(comparator_kind(comparator))],
            b,
            expression_words(right),
            c,
        );
    }
}

proof fn lemma_binding_reads(p: ParserView)
    ensures
        binding(p) matches Ok((found, q)) ==> is_expression(found) && reads(
            p,
            binding_words(found),
            q,
        ),
{
    if let Ok((found, q)) = binding(p) {
        let a = expect(p, TokenType::EQ)->Ok_0;
        let (value, b) = expression(a)->Ok_0;
        lemma_expect_reads(p, TokenType::EQ);
        lemma_expression_reads(a);
        lemma_reads_concat(p, seq![mark(TokenType::EQ)], a, expression_words(value), b);
        lemma_reads_more(
            p,
            seq![mark(TokenType::EQ)] + expression_words(value),
            b,
            mark(TokenType::SEMICOLON),
        );
    }
}

/// The spelling of a block reaches no further than the statements it is
/// taken of.
proof fn lemma_block_words_prefix(
    shorter: Seq<StatementView>,
    longer: Seq<StatementView>,
    upto: int,
)
    requires
        upto <= shorter.len() <= longer.len(),
        forall|i: int| 0 <= i < upto ==> shorter[i] == longer[i],
    ensures
        block_words(shorter, upto) == block_words(longer, upto),
    decreases upto,
{
    if 0 < upto {
        lemma_block_words_prefix(shorter, longer, upto - 1);
    }
}

proof fn lemma_block_words_push(done: Seq<StatementView>, next: StatementView)
    ensures
        program_words(done.push(next)) == program_words(done) + statement_words(next),
{
    lemma_block_words_prefix(done, done.push(next), done.len() as int);
}

/// What [`lemma_statement_reads`] has to say of a statement.
pub open spec fn statement_read(p: ParserView, found: StatementView, q: ParserView) -> bool {
    is_statement(found) && reads(p, statement_words(found), q)
}

proof fn lemma_print_reads(p: ParserView)
    requires
        p.current.kind == TokenType::PRINT,
    ensures
        statement(p) matches Ok((found, q)) ==> statement_read(p, found, q),
{
    if let Ok((found, q)) = statement(p) {
        let a = advance(p)->Ok_0;
        let (value, b) = expression(a)->Ok_0;
        lemma_reads_one(p, mark(TokenType::PRINT));
        lemma_expression_reads(a);
        lemma_reads_concat(p, seq![mark(TokenType::PRINT)], a, expression_words(value), b);
        lemma_reads_more(
            p,
            seq![mark(TokenType::PRINT)] + expression_words(value),
            b,
            mark(TokenType::SEMICOLON),
        );
    }
}

proof fn lemma_let_reads(p: ParserView)
    requires
        p.current.kind == TokenType::LET,
    ensures
        statement(p) matches Ok((found, q)) ==> statement_read(p, found, q),
{
    if let Ok((found, q)) = statement(p) {
        let a = advance(p)->Ok_0;
        let b = advance(a)->Ok_0;
        let name = a.current.text;
        let (value, c) = binding(b)->Ok_0;
        lemma_reads_one(p, mark(TokenType::LET));
        lemma_reads_more(p, seq![mark(TokenType::LET)], a, token(TokenType::IDENT, name));
        assert(seq![mark(TokenType::LET)] + seq![token(TokenType::IDENT, name)] =~= seq![
            mark(TokenType::LET),
            token(TokenType::IDENT, name),
        ]);
        lemma_binding_reads(b);
        lemma_reads_concat(
            p,
            seq![mark(TokenType::LET), token(TokenType::IDENT, name)],
            b,
            binding_words(value),
            c,
        );
    }
}

proof fn lemma_assignment_reads(p: ParserView)
    requires
        p.current.kind == TokenType::IDENT,
    ensures
        statement(p) matches Ok((found, q)) ==> statement_read(p, found, q),
{
    if let Ok((found, q)) = statement(p) {
        let a = advance(p)->Ok_0;
        let name = p.current.text;
        let (value, b) = binding(a)->Ok_0;
        lemma_reads_one(p, token(TokenType::IDENT, name));
        lemma_binding_reads(a);
        lemma_reads_concat(p, seq![token(TokenType::IDENT, name)], a, binding_words(value), b);
    }
}

/// A statement that the parser returns is one of the grammar, and the
/// parser has moved over its spelling.
pub proof fn lemma_statement_reads(p: ParserView)
    ensures
        statement(p) matches Ok((found, q)) ==> statement_read(p, found, q),
    decreases pending(p), 2int,
{
    match p.current.kind {
        TokenType::PRINT => {
            lemma_print_reads(p);
        },
        TokenType::LET => {
            lemma_let_reads(p);
        },
        TokenType::IDENT => {
            lemma_assignment_reads(p);
        },
        TokenType::IF => {
            lemma_clause_reads(p);
        },
        TokenType::WHILE => {
            lemma_while_loop_reads(p);
        },
        _ => {},
    }
}

/// The words of a loop, read piece by piece, are the spelling of the loop.
proof fn lemma_loop_spelled(
    p: ParserView,
    a: ParserView,
    test: ConditionView,
    b: ParserView,
    c: ParserView,
    statements: Seq<StatementView>,
    d: ParserView,
    q: ParserView,
)
    requires
        reads(p, seq![mark(TokenType::WHILE)], a),
        reads(a, condition_words(test), b),
        reads(b, seq![mark(TokenType::THEN)], c),
        reads(c, program_words(statements), d),
        reads(d, seq![mark(TokenType::END)], q),
    ensures
        reads(p, statement_words(StatementView::While(test, statements)), q),
{
    let w1 = seq![mark(TokenType::WHILE)];
    lemma_reads_concat(p, w1, a, condition_words(test), b);
    let w2 = w1 + condition_words(test);
    lemma_reads_concat(p, w2, b, seq![mark(TokenType::THEN)], c);
    let w3 = w2 + seq![mark(TokenType::THEN)];
    lemma_reads_concat(p, w3, c, program_words(statements), d);
    let w4 = w3 + program_words(statements);
    lemma_reads_concat(p, w4, d, seq![mark(TokenType::END)], q);
}

proof fn lemma_while_loop_reads(p: ParserView)
    ensures
        while_loop(p) matches Ok((found, q)) ==> statement_read(p, found, q),
    decreases pending(p), 1int,
{
    if let Ok((found, q)) = while_loop(p) {
        let a = advance(p)->Ok_0;
        let (test, b) = condition(a)->Ok_0;
        let c = expect(b, TokenType::THEN)->Ok_0;
        let (statements, other, d) = body(c, TokenType::WHILE, Seq::empty())->Ok_0;
        assert(found == StatementView::While(test, statements));
        assert(expect(d, TokenType::END) == Ok::<ParserView, ParseError>(q));
        lemma_advance_pending(p);
        lemma_condition_progress(a);
        lemma_expect_pending(b, TokenType::THEN);
        assert(reads(p, seq![mark(TokenType::WHILE)], a)) by {
            lemma_reads_one(p, mark(TokenType::WHILE));
        }
        assert(is_condition(test) && reads(a, condition_words(test), b)) by {
            lemma_condition_reads(a);
        }
        assert(reads(b, seq![mark(TokenType::THEN)], c)) by {
            lemma_expect_reads(b, TokenType::THEN);
        }
        assert(is_block(statements) && reads(c, program_words(statements), d)) by {
            lemma_reads_nothing(c);
            assert(program_words(Seq::<StatementView>::empty()) =~= Seq::<TokenView>::empty());
            lemma_body_reads(c, c, TokenType::WHILE, Seq::empty());
            lemma_body_pending(c, TokenType::WHILE, Seq::empty());
            assert(other is None);
            assert(rest_words(other) =~= Seq::<TokenView>::empty());
            assert(program_words(statements) + rest_words(other) =~= program_words(statements));
        }
        assert(reads(d, seq![mark(TokenType::END)], q)) by {
            lemma_expect_reads(d, TokenType::END);
        }
        lemma_loop_spelled(p, a, test, b, c, statements, d, q);
    }
}

/// What [`lemma_clause_reads`] has to say of a clause.
pub open spec fn clause_read(p: ParserView, found: IfView, q: ParserView) -> bool {
    &&& is_chain(found)
    &&& match p.current.kind {
        TokenType::IF => found is If && reads(
            p,
            chain_words(found) + seq![mark(TokenType::END)],
            q,
        ),
        TokenType::ELSEIF => found is ElseIf && reads(p, chain_words(found), q),
        _ => found is Else && reads(p, chain_words(found), q),
    }
}

/// A clause that the parser returns is one of the grammar, with the clauses
/// behind it, and the parser has moved over its spelling; after the clause
/// that `if` opens, over the closing `end` as well.
pub proof fn lemma_clause_reads(p: ParserView)
    ensures
        clause(p) matches Ok((found, q)) ==> clause_read(p, found, q),
    decreases pending(p), 1int,
{
    if let Ok((found, q)) = clause(p) {
        let opener = p.current.kind;
        let a = advance(p)->Ok_0;
        lemma_advance_pending(p);
        lemma_reads_one(p, mark(opener));
        let w1 = seq![mark(opener)];
        assert(program_words(Seq::<StatementView>::empty()) =~= Seq::<TokenView>::empty());
        if opener == TokenType::ELSE {
            let (statements, other, b) = body(a, opener, Seq::empty())->Ok_0;
            lemma_reads_nothing(a);
            lemma_body_reads(a, a, opener, Seq::empty());
            lemma_body_pending(a, opener, Seq::empty());
            assert(rest_words(other) =~= Seq::<TokenView>::empty());
            assert(program_words(statements) + rest_words(other) =~= program_words(statements));
            lemma_reads_concat(p, w1, a, program_words(statements), b);
        } else {
            let (test, b) = condition(a)->Ok_0;
            let c = expect(b, TokenType::THEN)->Ok_0;
            let (statements, other, d) = body(c, opener, Seq::empty())->Ok_0;
            lemma_condition_progress(a);
            lemma_expect_pending(b, TokenType::THEN);
            lemma_condition_reads(a);
            lemma_reads_concat(p, w1, a, condition_words(test), b);
            let w2 = w1 + condition_words(test);
            lemma_reads_more(p, w2, b, mark(TokenType::THEN));
            let w3 = w2 + seq![mark(TokenType::THEN)];
            lemma_reads_nothing(c);
            lemma_body_reads(c, c, opener, Seq::empty());
            lemma_reads_concat(p, w3, c, program_words(statements) + rest_words(other), d);
            assert(w3 + (program_words(statements) + rest_words(other)) =~= w3 + program_words(
                statements,
            ) + rest_words(other));
            if opener == TokenType::IF {
                lemma_reads_more(
                    p,
                    w3 + program_words(statements) + rest_words(other),
                    d,
                    mark(TokenType::END),
                );
            }
        }
    }
}

/// What [`lemma_body_reads`] has to say of a body.
pub open spec fn body_read(
    start: ParserView,
    opener: TokenType,
    statements: Seq<StatementView>,
    other: Option<Box<IfView>>,
    q: ParserView,
) -> bool {
    &&& is_block(statements)
    &&& is_rest(other)
    &&& reads(start, program_words(statements) + rest_words(other), q)
}

/// The statements of a body that the parser returns are statements of the
/// grammar, the clauses behind the body are `elseif` clauses and at most
/// one `else` clause, and the parser has moved over the spelling of both.
pub proof fn lemma_body_reads(
    start: ParserView,
    p: ParserView,
    opener: TokenType,
    done: Seq<StatementView>,
)
    requires
        is_block(done),
        reads(start, program_words(done), p),
    ensures
        body(p, opener, done) matches Ok((statements, other, q)) ==> body_read(
            start,
            opener,
            statements,
            other,
            q,
        ),
    decreases pending(p), 3int,
{
    if let Ok((statements, other, q)) = body(p, opener, done) {
        if p.current.kind == TokenType::END {
            assert(program_words(done) + rest_words(None) =~= program_words(done));
        } else if continues_chain(p.current.kind) && opener == TokenType::ELSE {
        } else if continues_chain(p.current.kind) && opener != TokenType::WHILE {
            let (next, r) = clause(p)->Ok_0;
            lemma_clause_reads(p);
            lemma_reads_concat(start, program_words(done), p, chain_words(next), r);
        } else {
            let (next, r) = statement(p)->Ok_0;
            lemma_statement_reads(p);
            lemma_statement_progress(p);
            lemma_reads_concat(start, program_words(done), p, statement_words(next), r);
            lemma_block_words_push(done, next);
            let grown = done.push(next);
            assert forall|i: int| 0 <= i < grown.len() implies is_statement(
                #[trigger] grown[i],
            ) by {
                if i < done.len() {
                    assert(grown[i] == done[i]);
                }
            }
            lemma_body_reads(start, r, opener, grown);
        }
    }
}

proof fn lemma_program_reads(start: ParserView, p: ParserView, done: Seq<StatementView>)
    requires
        is_block(done),
        reads(start, program_words(done), p),
    ensures
        program(p, done) matches Ok((statements, q)) ==> is_block(statements) && reads(
            start,
            program_words(statements),
            q,
        ) && q.current.kind == TokenType::EOF,
    decreases pending(p),
{
    if let Ok((statements, q)) = program(p, done) {
        if p.current.kind != TokenType::EOF {
            let (next, r) = statement(p)->Ok_0;
            lemma_statement_reads(p);
            lemma_statement_progress(p);
            lemma_reads_concat(start, program_words(done), p, statement_words(next), r);
            lemma_block_words_push(done, next);
            let grown = done.push(next);
            assert forall|i: int| 0 <= i < grown.len() implies is_statement(
                #[trigger] grown[i],
            ) by {
                if i < done.len() {
                    assert(grown[i] == done[i]);
                }
            }
            lemma_program_reads(start, r, grown);
        }
    }
}

/// The parser reads by the grammar.
///
/// A program that the parser returns consists of statements of the grammar.
/// Once the two reads that fill the window are done, the parser has moved,
/// token by token, over exactly the spelling of that program, and stands at
/// the end token.
pub proof fn lemma_parse_reads(p: ParserView)
    ensures
        parse_spec(p) matches Ok((statements, q)) ==> {
            &&& is_block(statements)
            &&& advance(p) matches Ok(first)
            &&& advance(first) matches Ok(filled)
            &&& reads(filled, program_words(statements), q)
            &&& q.current.kind == TokenType::EOF
        },
{
    if let Ok((statements, q)) = parse_spec(p) {
        let first = advance(p)->Ok_0;
        let filled = advance(first)->Ok_0;
        lemma_reads_nothing(filled);
        assert(program_words(Seq::<StatementView>::empty()) =~= Seq::<TokenView>::empty());
        lemma_program_reads(filled, filled, Seq::empty());
    }
}

} // verus!
