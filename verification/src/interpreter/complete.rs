//! That the parser reads every program of the grammar.
//!
//! The converse of [`crate::interpreter::grammar`]: where the tokens in
//! front of the parser are the spelling of a tree of the grammar, and what
//! follows them cannot be taken for more of it, the parser returns that
//! tree. Together the two say that the parser accepts exactly the programs
//! of the grammar, and that a program has one tree only.

use vstd::prelude::*;
use crate::interpreter::ast::ConditionView;
use crate::interpreter::ast::ExpressionView;
use crate::interpreter::ast::IfView;
use crate::interpreter::ast::LiteralView;
use crate::interpreter::ast::Operator;
use crate::interpreter::ast::StatementView;
use crate::interpreter::grammar::binding_words;
use crate::interpreter::grammar::block_words;
use crate::interpreter::grammar::chain_words;
use crate::interpreter::grammar::comparator_kind;
use crate::interpreter::grammar::condition_words;
use crate::interpreter::grammar::expression_words;
use crate::interpreter::grammar::is_block;
use crate::interpreter::grammar::is_chain;
use crate::interpreter::grammar::is_condition;
use crate::interpreter::grammar::is_expression;
use crate::interpreter::grammar::is_primary;
use crate::interpreter::grammar::is_rest;
use crate::interpreter::grammar::is_statement;
use crate::interpreter::grammar::is_sum;
use crate::interpreter::grammar::is_term;
use crate::interpreter::grammar::is_unary;
use crate::interpreter::grammar::lemma_parse_reads;
use crate::interpreter::grammar::mark;
use crate::interpreter::grammar::operator_kind;
use crate::interpreter::grammar::program_words;
use crate::interpreter::grammar::reads;
use crate::interpreter::grammar::rest_words;
use crate::interpreter::grammar::spells;
use crate::interpreter::grammar::statement_words;
use crate::interpreter::lexer::token;
use crate::interpreter::parser::advance;
use crate::interpreter::parser::binding;
use crate::interpreter::parser::body;
use crate::interpreter::parser::clause;
use crate::interpreter::parser::comparator_of;
use crate::interpreter::parser::condition;
use crate::interpreter::parser::expect;
use crate::interpreter::parser::expression;
use crate::interpreter::parser::expression_rest;
use crate::interpreter::parser::factor_of;
use crate::interpreter::parser::lemma_statement_progress;
use crate::interpreter::parser::parse_spec;
use crate::interpreter::parser::primary;
use crate::interpreter::parser::program;
use crate::interpreter::parser::sign_of;
use crate::interpreter::parser::statement;
use crate::interpreter::parser::term;
use crate::interpreter::parser::term_rest;
use crate::interpreter::parser::unary;
use crate::interpreter::parser::while_loop;
use crate::interpreter::parser::ParseError;
use crate::interpreter::parser::ParserView;
use crate::interpreter::token::TokenType;
use crate::interpreter::token::TokenView;

verus! {

/// The parser moved on by `count` tokens, as far as the tokenizer allows.
pub open spec fn skip(p: ParserView, count: nat) -> ParserView
    decreases count,
{
    if count == 0 {
        p
    } else {
        match advance(p) {
            Ok(next) => skip(next, (count - 1) as nat),
            Err(_) => p,
        }
    }
}

/// Whether a token of this kind ends a term: it is no `*` and no `/`.
pub open spec fn ends_term(kind: TokenType) -> bool {
    factor_of(kind) is None
}

/// Whether a token of this kind ends an expression: it is none of the
/// four operators.
pub open spec fn ends_expression(kind: TokenType) -> bool {
    factor_of(kind) is None && sign_of(kind) is None
}

/// What is read leads to one place only.
proof fn lemma_reads_skips(p: ParserView, words: Seq<TokenView>, q: ParserView)
    requires
        reads(p, words, q),
    ensures
        q == skip(p, words.len()),
    decreases words.len(),
{
    if words.len() > 0 {
        lemma_reads_skips(advance(p)->Ok_0, words.drop_first(), q);
    }
}

/// What is read in one go can be read in two.
proof fn lemma_reads_split(
    p: ParserView,
    first: Seq<TokenView>,
    second: Seq<TokenView>,
    q: ParserView,
)
    requires
        reads(p, first + second, q),
    ensures
        reads(p, first, skip(p, first.len())),
        reads(skip(p, first.len()), second, q),
    decreases first.len(),
{
    if first.len() == 0 {
        assert(first + second =~= second);
    } else {
        assert((first + second).drop_first() =~= first.drop_first() + second);
        assert((first + second)[0] == first[0]);
        lemma_reads_split(advance(p)->Ok_0, first.drop_first(), second, q);
    }
}

/// Reading one word is moving over one token that is that word.
proof fn lemma_reads_word(p: ParserView, word: TokenView, q: ParserView)
    requires
        reads(p, seq![word], q),
    ensures
        spells(p.current, word),
        advance(p) == Ok::<ParserView, ParseError>(q),
{
    let one = seq![word];
    assert(one[0] == word);
    assert(one.drop_first() =~= Seq::<TokenView>::empty());
    reveal_with_fuel(reads, 2);
}

/// Reading a word and more is moving over one token and reading the rest.
proof fn lemma_reads_front(p: ParserView, word: TokenView, rest: Seq<TokenView>, q: ParserView)
    requires
        reads(p, seq![word] + rest, q),
    ensures
        spells(p.current, word),
        advance(p) is Ok,
        reads(advance(p)->Ok_0, rest, q),
{
    let all = seq![word] + rest;
    assert(all[0] == word);
    assert(all.drop_first() =~= rest);
}

/// The first token in front of the parser is the first word of what it
/// reads.
proof fn lemma_reads_first(p: ParserView, words: Seq<TokenView>, q: ParserView)
    requires
        reads(p, words, q),
        words.len() > 0,
    ensures
        spells(p.current, words[0]),
{
}

/// A sum begins with a number, a name or a sign.
proof fn lemma_sum_begins(expression: ExpressionView)
    requires
        is_sum(expression),
    ensures
        expression_words(expression).len() > 0,
        ({
            let kind = expression_words(expression)[0].kind;
            kind == TokenType::NUMBER || kind == TokenType::IDENT || kind == TokenType::PLUS
                || kind == TokenType::MINUS
        }),
    decreases expression,
{
    match expression {
        ExpressionView::BinaryOp(left, _, _) => {
            if is_term(expression) {
                lemma_sum_begins(*left);
            } else {
                lemma_sum_begins(*left);
            }
        },
        _ => {},
    }
}

proof fn lemma_primary_complete(p: ParserView, tree: ExpressionView, q: ParserView)
    requires
        is_primary(tree),
        reads(p, expression_words(tree), q),
    ensures
        primary(p) == Ok::<(ExpressionView, ParserView), ParseError>((tree, q)),
{
    lemma_reads_word(p, expression_words(tree)[0], q);
    assert(expression_words(tree) =~= seq![expression_words(tree)[0]]);
}

proof fn lemma_unary_complete(p: ParserView, tree: ExpressionView, q: ParserView)
    requires
        is_unary(tree),
        reads(p, expression_words(tree), q),
    ensures
        unary(p) == Ok::<(ExpressionView, ParserView), ParseError>((tree, q)),
{
    if is_primary(tree) {
        lemma_primary_complete(p, tree, q);
    } else {
        match tree {
            ExpressionView::UnaryOp(sign, operand) => {
                lemma_reads_front(p, mark(operator_kind(sign)), expression_words(*operand), q);
                lemma_primary_complete(advance(p)->Ok_0, *operand, q);
            },
            _ => {},
        }
    }
}

/// The parser, begun in front of a term, is after the term where it would
/// be had it read the term already.
proof fn lemma_term_reached(p: ParserView, tree: ExpressionView, q: ParserView)
    requires
        is_term(tree),
        reads(p, expression_words(tree), q),
    ensures
        term(p) == term_rest(q, tree),
    decreases tree,
{
    if is_unary(tree) {
        lemma_unary_complete(p, tree, q);
    } else {
        match tree {
            ExpressionView::BinaryOp(left, operator, right) => {
                let left = *left;
                let right = *right;
                let sign = seq![mark(operator_kind(operator))];
                lemma_reads_split(
                    p,
                    expression_words(left) + sign,
                    expression_words(right),
                    q,
                );
                let b = skip(p, (expression_words(left) + sign).len());
                lemma_reads_split(p, expression_words(left), sign, b);
                let a = skip(p, expression_words(left).len());
                lemma_reads_word(a, mark(operator_kind(operator)), b);
                lemma_term_reached(p, left, a);
                lemma_unary_complete(b, right, q);
            },
            _ => {},
        }
    }
}

proof fn lemma_term_complete(p: ParserView, tree: ExpressionView, q: ParserView)
    requires
        is_term(tree),
        reads(p, expression_words(tree), q),
        ends_term(q.current.kind),
    ensures
        term(p) == Ok::<(ExpressionView, ParserView), ParseError>((tree, q)),
{
    lemma_term_reached(p, tree, q);
}

/// What the parser makes of a sum: a term and what is joined to it.
pub open spec fn sum(p: ParserView) -> Result<(ExpressionView, ParserView), ParseError> {
    match term(p) {
        Ok((first, q)) => expression_rest(q, first),
        Err(e) => Err(e),
    }
}

/// The parser, begun in front of a sum, is after the sum where it would be
/// had it read the sum already.
proof fn lemma_sum_reached(p: ParserView, tree: ExpressionView, q: ParserView)
    requires
        is_sum(tree),
        reads(p, expression_words(tree), q),
        ends_term(q.current.kind),
    ensures
        sum(p) == expression_rest(q, tree),
    decreases tree,
{
    if is_term(tree) {
        lemma_term_complete(p, tree, q);
    } else {
        match tree {
            ExpressionView::BinaryOp(left, operator, right) => {
                let left = *left;
                let right = *right;
                let sign = seq![mark(operator_kind(operator))];
                lemma_reads_split(
                    p,
                    expression_words(left) + sign,
                    expression_words(right),
                    q,
                );
                let b = skip(p, (expression_words(left) + sign).len());
                lemma_reads_split(p, expression_words(left), sign, b);
                let a = skip(p, expression_words(left).len());
                lemma_reads_word(a, mark(operator_kind(operator)), b);
                lemma_sum_reached(p, left, a);
                lemma_term_complete(b, right, q);
            },
            _ => {},
        }
    }
}

/// The parser reads every expression of the grammar, where the token that
/// follows the expression is no operator.
pub proof fn lemma_expression_complete(p: ParserView, tree: ExpressionView, q: ParserView)
    requires
        is_expression(tree),
        reads(p, expression_words(tree), q),
        ends_expression(q.current.kind),
    ensures
        expression(p) == Ok::<(ExpressionView, ParserView), ParseError>((tree, q)),
{
    if is_sum(tree) {
        lemma_sum_begins(tree);
        lemma_reads_first(p, expression_words(tree), q);
        lemma_sum_reached(p, tree, q);
    } else {
        lemma_reads_word(p, expression_words(tree)[0], q);
        assert(expression_words(tree) =~= seq![expression_words(tree)[0]]);
    }
}

/// The parser reads every condition of the grammar, where the token that
/// follows the condition is no operator.
pub proof fn lemma_condition_complete(p: ParserView, tree: ConditionView, q: ParserView)
    requires
        is_condition(tree),
        reads(p, condition_words(tree), q),
        ends_expression(q.current.kind),
    ensures
        condition(p) == Ok::<(ConditionView, ParserView), ParseError>((tree, q)),
{
    let sign = seq![mark(comparator_kind(tree.comparator))];
    lemma_reads_split(p, expression_words(tree.left) + sign, expression_words(tree.right), q);
    let b = skip(p, (expression_words(tree.left) + sign).len());
    lemma_reads_split(p, expression_words(tree.left), sign, b);
    let a = skip(p, expression_words(tree.left).len());
    lemma_reads_word(a, mark(comparator_kind(tree.comparator)), b);
    lemma_expression_complete(p, tree.left, a);
    lemma_expression_complete(b, tree.right, q);
}

proof fn lemma_binding_complete(p: ParserView, tree: ExpressionView, q: ParserView)
    requires
        is_expression(tree),
        reads(p, binding_words(tree), q),
    ensures
        binding(p) == Ok::<(ExpressionView, ParserView), ParseError>((tree, q)),
{
    let equals = seq![mark(TokenType::EQ)];
    let semicolon = seq![mark(TokenType::SEMICOLON)];
    lemma_reads_split(p, equals + expression_words(tree), semicolon, q);
    let b = skip(p, (equals + expression_words(tree)).len());
    lemma_reads_front(p, mark(TokenType::EQ), expression_words(tree), b);
    let a = advance(p)->Ok_0;
    lemma_reads_word(b, mark(TokenType::SEMICOLON), q);
    lemma_expression_complete(a, tree, b);
}

/// The spelling of the statements of a block from index `from` on.
pub open spec fn tail_words(statements: Seq<StatementView>, from: int) -> Seq<TokenView>
    decreases statements.len() - from,
{
    if 0 <= from < statements.len() {
        statement_words(statements[from]) + tail_words(statements, from + 1)
    } else {
        Seq::empty()
    }
}

/// The spelling of a block is the spelling of its first statements and then
/// that of the others.
proof fn lemma_block_words_split(statements: Seq<StatementView>, from: int)
    requires
        0 <= from <= statements.len(),
    ensures
        block_words(statements, from) + tail_words(statements, from) == program_words(statements),
    decreases statements.len() - from,
{
    if from < statements.len() {
        lemma_block_words_split(statements, from + 1);
        assert(block_words(statements, from) + tail_words(statements, from) =~= block_words(
            statements,
            from + 1,
        ) + tail_words(statements, from + 1));
    } else {
        assert(block_words(statements, from) + tail_words(statements, from) =~= program_words(
            statements,
        ));
    }
}

/// A statement begins with the token that says which statement it is.
proof fn lemma_statement_begins(tree: StatementView)
    requires
        is_statement(tree),
    ensures
        statement_words(tree).len() > 0,
        statement_words(tree)[0].kind == (match tree {
            StatementView::Print(_) => TokenType::PRINT,
            StatementView::Let(_, _) => TokenType::LET,
            StatementView::Assignment(_, _) => TokenType::IDENT,
            StatementView::If(_) => TokenType::IF,
            StatementView::While(_, _) => TokenType::WHILE,
        }),
{
    match tree {
        StatementView::If(chain) => {
            lemma_chain_begins(chain);
        },
        _ => {},
    }
}

/// A clause begins with the keyword that says which clause it is.
proof fn lemma_chain_begins(chain: IfView)
    ensures
        chain_words(chain).len() > 0,
        chain_words(chain)[0].kind == (match chain {
            IfView::If(_, _, _) => TokenType::IF,
            IfView::ElseIf(_, _, _) => TokenType::ELSEIF,
            IfView::Else(_) => TokenType::ELSE,
        }),
{
}

/// The spelling of a whole block, from its first statement on.
proof fn lemma_tail_words_whole(statements: Seq<StatementView>)
    ensures
        tail_words(statements, 0) == program_words(statements),
{
    lemma_block_words_split(statements, 0);
    assert(block_words(statements, 0) + tail_words(statements, 0) =~= tail_words(statements, 0));
}

/// What stands in front of a parser that reads a condition, `then`, a body
/// and the clauses behind it, behind the keyword `opener`.
proof fn lemma_clause_parts(
    p: ParserView,
    opener: TokenType,
    test: ConditionView,
    statements: Seq<StatementView>,
    other: Option<Box<IfView>>,
    end: ParserView,
)
    requires
        reads(
            p,
            seq![mark(opener)] + condition_words(test) + seq![mark(TokenType::THEN)]
                + program_words(statements) + rest_words(other),
            end,
        ),
    ensures
        p.current.kind == opener,
        advance(p) is Ok,
        ({
            let a = advance(p)->Ok_0;
            let b = skip(a, condition_words(test).len());
            &&& reads(a, condition_words(test), b)
            &&& b.current.kind == TokenType::THEN
            &&& advance(b) is Ok
            &&& reads(
                advance(b)->Ok_0,
                tail_words(statements, 0) + rest_words(other),
                end,
            )
        }),
{
    let then = seq![mark(TokenType::THEN)];
    let inside = program_words(statements) + rest_words(other);
    let all = seq![mark(opener)] + condition_words(test) + then + program_words(statements)
        + rest_words(other);
    assert(all =~= seq![mark(opener)] + (condition_words(test) + (then + inside)));
    lemma_reads_front(p, mark(opener), condition_words(test) + (then + inside), end);
    let a = advance(p)->Ok_0;
    lemma_reads_split(a, condition_words(test), then + inside, end);
    let b = skip(a, condition_words(test).len());
    lemma_reads_front(b, mark(TokenType::THEN), inside, end);
    lemma_tail_words_whole(statements);
}

proof fn lemma_print_complete(p: ParserView, shown: ExpressionView, q: ParserView)
    requires
        is_expression(shown),
        reads(p, statement_words(StatementView::Print(shown)), q),
    ensures
        statement(p) == Ok::<(StatementView, ParserView), ParseError>(
            (StatementView::Print(shown), q),
        ),
{
    let print = seq![mark(TokenType::PRINT)];
    let semicolon = seq![mark(TokenType::SEMICOLON)];
    lemma_reads_split(p, print + expression_words(shown), semicolon, q);
    let b = skip(p, (print + expression_words(shown)).len());
    lemma_reads_front(p, mark(TokenType::PRINT), expression_words(shown), b);
    lemma_reads_word(b, mark(TokenType::SEMICOLON), q);
    lemma_expression_complete(advance(p)->Ok_0, shown, b);
}

proof fn lemma_let_complete(p: ParserView, name: Seq<char>, bound: ExpressionView, q: ParserView)
    requires
        is_expression(bound),
        reads(p, statement_words(StatementView::Let(name, bound)), q),
    ensures
        statement(p) == Ok::<(StatementView, ParserView), ParseError>(
            (StatementView::Let(name, bound), q),
        ),
{
    let head = seq![mark(TokenType::LET), token(TokenType::IDENT, name)];
    assert(head + binding_words(bound) =~= seq![mark(TokenType::LET)] + (seq![
        token(TokenType::IDENT, name),
    ] + binding_words(bound)));
    lemma_reads_front(
        p,
        mark(TokenType::LET),
        seq![token(TokenType::IDENT, name)] + binding_words(bound),
        q,
    );
    let a = advance(p)->Ok_0;
    lemma_reads_front(a, token(TokenType::IDENT, name), binding_words(bound), q);
    lemma_binding_complete(advance(a)->Ok_0, bound, q);
}

proof fn lemma_assignment_complete(
    p: ParserView,
    name: Seq<char>,
    bound: ExpressionView,
    q: ParserView,
)
    requires
        is_expression(bound),
        reads(p, statement_words(StatementView::Assignment(name, bound)), q),
    ensures
        statement(p) == Ok::<(StatementView, ParserView), ParseError>(
            (StatementView::Assignment(name, bound), q),
        ),
{
    lemma_reads_front(p, token(TokenType::IDENT, name), binding_words(bound), q);
    lemma_binding_complete(advance(p)->Ok_0, bound, q);
}

/// The parser reads every loop of the grammar.
proof fn lemma_while_complete(
    p: ParserView,
    test: ConditionView,
    statements: Seq<StatementView>,
    q: ParserView,
)
    requires
        is_condition(test),
        is_block(statements),
        reads(p, statement_words(StatementView::While(test, statements)), q),
    ensures
        while_loop(p) == Ok::<(StatementView, ParserView), ParseError>(
            (StatementView::While(test, statements), q),
        ),
        p.current.kind == TokenType::WHILE,
    decreases statement_words(StatementView::While(test, statements)).len(), 0nat,
{
    let end = seq![mark(TokenType::END)];
    let front = seq![mark(TokenType::WHILE)] + condition_words(test) + seq![
        mark(TokenType::THEN),
    ] + program_words(statements);
    lemma_reads_split(p, front, end, q);
    let d = skip(p, front.len());
    lemma_reads_word(d, mark(TokenType::END), q);
    assert(rest_words(None) =~= Seq::<TokenView>::empty());
    assert(front + rest_words(None) =~= front);
    lemma_clause_parts(p, TokenType::WHILE, test, statements, None, d);
    let a = advance(p)->Ok_0;
    let b = skip(a, condition_words(test).len());
    let c = advance(b)->Ok_0;
    assert(condition(a) == Ok::<(ConditionView, ParserView), ParseError>((test, b))) by {
        lemma_condition_complete(a, test, b);
    }
    lemma_tail_words_whole(statements);
    assert(statements.take(0) =~= Seq::<StatementView>::empty());
    assert(body(c, TokenType::WHILE, Seq::empty()) == Ok::<
        (Seq<StatementView>, Option<Box<IfView>>, ParserView),
        ParseError,
    >((statements, None, d))) by {
        assert(tail_words(statements, 0) + rest_words(None) =~= program_words(statements));
        lemma_body_complete(c, TokenType::WHILE, statements, 0, None, d);
    }
}

/// The parser reads every statement of the grammar.
pub proof fn lemma_statement_complete(p: ParserView, tree: StatementView, q: ParserView)
    requires
        is_statement(tree),
        reads(p, statement_words(tree), q),
    ensures
        statement(p) == Ok::<(StatementView, ParserView), ParseError>((tree, q)),
    decreases statement_words(tree).len(), 1nat,
{
    match tree {
        StatementView::Print(shown) => {
            lemma_print_complete(p, shown, q);
        },
        StatementView::Let(name, bound) => {
            lemma_let_complete(p, name, bound, q);
        },
        StatementView::Assignment(name, bound) => {
            lemma_assignment_complete(p, name, bound, q);
        },
        StatementView::If(chain) => {
            lemma_chain_begins(chain);
            lemma_reads_first(p, statement_words(tree), q);
            lemma_clause_complete(p, chain, q);
        },
        StatementView::While(test, statements) => {
            lemma_while_complete(p, test, statements, q);
        },
    }
}

/// The parser reads every clause of the grammar, with the clauses behind
/// it: the clause that `if` opens up to the closing `end`, the others up to
/// in front of it.
pub proof fn lemma_clause_complete(p: ParserView, chain: IfView, q: ParserView)
    requires
        is_chain(chain),
        match chain {
            IfView::If(_, _, _) => reads(p, chain_words(chain) + seq![mark(TokenType::END)], q),
            _ => reads(p, chain_words(chain), q) && q.current.kind == TokenType::END,
        },
    ensures
        clause(p) == Ok::<(IfView, ParserView), ParseError>((chain, q)),
    decreases chain_words(chain).len(), 2nat,
{
    match chain {
        IfView::If(test, statements, other) => {
            lemma_reads_split(p, chain_words(chain), seq![mark(TokenType::END)], q);
            let d = skip(p, chain_words(chain).len());
            lemma_reads_word(d, mark(TokenType::END), q);
            lemma_clause_parts(p, TokenType::IF, test, statements, other, d);
            let a = advance(p)->Ok_0;
            let b = skip(a, condition_words(test).len());
            let c = advance(b)->Ok_0;
            lemma_condition_complete(a, test, b);
            lemma_tail_words_whole(statements);
            assert(statements.take(0) =~= Seq::<StatementView>::empty());
            lemma_body_complete(c, TokenType::IF, statements, 0, other, d);
            assert(statements.take(statements.len() as int) =~= statements);
        },
        IfView::ElseIf(test, statements, other) => {
            lemma_clause_parts(p, TokenType::ELSEIF, test, statements, other, q);
            let a = advance(p)->Ok_0;
            let b = skip(a, condition_words(test).len());
            let c = advance(b)->Ok_0;
            lemma_condition_complete(a, test, b);
            lemma_tail_words_whole(statements);
            assert(statements.take(0) =~= Seq::<StatementView>::empty());
            lemma_body_complete(c, TokenType::ELSEIF, statements, 0, other, q);
            assert(statements.take(statements.len() as int) =~= statements);
        },
        IfView::Else(statements) => {
            lemma_reads_front(p, mark(TokenType::ELSE), program_words(statements), q);
            let a = advance(p)->Ok_0;
            lemma_tail_words_whole(statements);
            assert(rest_words(None) =~= Seq::<TokenView>::empty());
            assert(tail_words(statements, 0) + rest_words(None) =~= program_words(statements));
            assert(statements.take(0) =~= Seq::<StatementView>::empty());
            lemma_body_complete(a, TokenType::ELSE, statements, 0, None, q);
            assert(statements.take(statements.len() as int) =~= statements);
        },
    }
}

/// The parser reads every body of the grammar: with the first `from`
/// statements of a block read, and the others and the clauses behind the
/// body in front of it, up to an `end`, it returns the whole block and
/// those clauses.
pub proof fn lemma_body_complete(
    p: ParserView,
    opener: TokenType,
    statements: Seq<StatementView>,
    from: int,
    other: Option<Box<IfView>>,
    q: ParserView,
)
    requires
        is_block(statements),
        is_rest(other),
        other is Some ==> opener == TokenType::IF || opener == TokenType::ELSEIF,
        0 <= from <= statements.len(),
        reads(p, tail_words(statements, from) + rest_words(other), q),
        q.current.kind == TokenType::END,
    ensures
        body(p, opener, statements.take(from)) == Ok::<
            (Seq<StatementView>, Option<Box<IfView>>, ParserView),
            ParseError,
        >((statements, other, q)),
    decreases (tail_words(statements, from) + rest_words(other)).len(), 3nat,
{
    let done = statements.take(from);
    if from < statements.len() {
        let next = statements[from];
        let words = statement_words(next);
        lemma_statement_begins(next);
        assert(tail_words(statements, from) + rest_words(other) =~= words + (tail_words(
            statements,
            from + 1,
        ) + rest_words(other)));
        lemma_reads_split(p, words, tail_words(statements, from + 1) + rest_words(other), q);
        let r = skip(p, words.len());
        lemma_reads_first(p, words, r);
        lemma_statement_complete(p, next, r);
        lemma_statement_progress(p);
        assert(done.push(next) =~= statements.take(from + 1));
        lemma_body_complete(r, opener, statements, from + 1, other, q);
    } else {
        assert(done =~= statements);
        assert(tail_words(statements, from) + rest_words(other) =~= rest_words(other));
        match other {
            Some(next) => {
                lemma_chain_begins(*next);
                lemma_reads_first(p, chain_words(*next), q);
                lemma_clause_complete(p, *next, q);
            },
            None => {},
        }
    }
}

/// The parser, with the first `from` statements of a program read and the
/// others in front of it, up to the end token, returns the whole program.
proof fn lemma_program_complete(
    p: ParserView,
    statements: Seq<StatementView>,
    from: int,
    q: ParserView,
)
    requires
        is_block(statements),
        0 <= from <= statements.len(),
        reads(p, tail_words(statements, from), q),
        q.current.kind == TokenType::EOF,
    ensures
        program(p, statements.take(from)) == Ok::<(Seq<StatementView>, ParserView), ParseError>(
            (statements, q),
        ),
    decreases statements.len() - from,
{
    let done = statements.take(from);
    if from < statements.len() {
        let next = statements[from];
        let words = statement_words(next);
        lemma_statement_begins(next);
        lemma_reads_split(p, words, tail_words(statements, from + 1), q);
        let r = skip(p, words.len());
        lemma_reads_first(p, words, r);
        lemma_statement_complete(p, next, r);
        assert(done.push(next) =~= statements.take(from + 1));
        lemma_program_complete(r, statements, from + 1, q);
    } else {
        assert(done =~= statements);
    }
}

/// The parser reads every program of the grammar.
///
/// Where the two reads that fill the window succeed, and what then stands
/// in front of the parser, up to an end token, is the spelling of a program
/// whose statements are statements of the grammar, the parser returns that
/// program.
pub proof fn lemma_parse_complete(p: ParserView, statements: Seq<StatementView>, q: ParserView)
    requires
        is_block(statements),
        advance(p) is Ok,
        advance(advance(p)->Ok_0) is Ok,
        reads(advance(advance(p)->Ok_0)->Ok_0, program_words(statements), q),
        q.current.kind == TokenType::EOF,
    ensures
        parse_spec(p) == Ok::<(Seq<StatementView>, ParserView), ParseError>((statements, q)),
{
    let filled = advance(advance(p)->Ok_0)->Ok_0;
    lemma_tail_words_whole(statements);
    assert(statements.take(0) =~= Seq::<StatementView>::empty());
    lemma_program_complete(filled, statements, 0, q);
}

/// Whether the source in front of a parser with a blank window is the
/// program made of `statements`: the window can be filled, and what then
/// stands in front of the parser, up to an end token at `q`, is the
/// spelling of these statements, which are statements of the grammar.
pub open spec fn spelled(p: ParserView, statements: Seq<StatementView>, q: ParserView) -> bool {
    &&& is_block(statements)
    &&& advance(p) matches Ok(first)
    &&& advance(first) matches Ok(filled)
    &&& reads(filled, program_words(statements), q)
    &&& q.current.kind == TokenType::EOF
}

/// The parser accepts exactly the programs of the grammar: it returns a
/// program, and stands at `q`, if and only if the source is that program,
/// spelled up to `q`.
pub proof fn lemma_parse_exact(p: ParserView, statements: Seq<StatementView>, q: ParserView)
    ensures
        parse_spec(p) == Ok::<(Seq<StatementView>, ParserView), ParseError>((statements, q))
            <==> spelled(p, statements, q),
{
    if spelled(p, statements, q) {
        lemma_parse_complete(p, statements, q);
    }
    if parse_spec(p) == Ok::<(Seq<StatementView>, ParserView), ParseError>((statements, q)) {
        lemma_parse_reads(p);
    }
}

/// A source is the spelling of one program at most.
pub proof fn lemma_one_tree(
    p: ParserView,
    one: Seq<StatementView>,
    q: ParserView,
    other: Seq<StatementView>,
    r: ParserView,
)
    requires
        spelled(p, one, q),
        spelled(p, other, r),
    ensures
        one == other,
        q == r,
{
    lemma_parse_complete(p, one, q);
    lemma_parse_complete(p, other, r);
}

} // verus!
