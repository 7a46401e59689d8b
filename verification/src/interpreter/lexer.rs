//! The tokenizer: one token per call, read from a cursor over the source
//! characters.

use vstd::prelude::*;
use crate::interpreter::text::char_is_alphabetic;
use crate::interpreter::text::char_is_alphanumeric;
use crate::interpreter::text::char_is_whitespace;
use crate::interpreter::text::is_ascii_digit;
use crate::interpreter::text::is_digit;
use crate::interpreter::token::word_kind;
use crate::interpreter::token::Token;
use crate::interpreter::token::TokenType;
use crate::interpreter::token::TokenView;

verus! {

/// Why the characters at the cursor are no token.
#[derive(Debug, PartialEq, Eq, Clone, Copy, Structural)]
pub enum LexError {
    /// A `!` that no `=` follows.
    InvalidToken,
    /// A string literal whose closing quote is missing.
    UnclosedString,
    /// A number whose `.` is not followed by a digit.
    InvalidNumber,
}

/// The classes of characters that a token may run over.
pub enum CharClass {
    Whitespace,
    Digit,
    Alphanumeric,
    /// Anything but a double quote: the inside of a string literal.
    Unquoted,
}

/// Whether a character belongs to a class.
pub open spec fn in_class(class: CharClass, c: char) -> bool {
    match class {
        CharClass::Whitespace => char_is_whitespace(c),
        CharClass::Digit => is_digit(c),
        CharClass::Alphanumeric => char_is_alphanumeric(c),
        CharClass::Unquoted => c != '"',
    }
}

/// Where the longest run of characters of `class` that begins at `from`
/// ends: the first index at or after `from` that holds a character outside
/// the class, or the end of the input.
pub open spec fn run_end(input: Seq<char>, class: CharClass, from: int) -> int
    decreases input.len() - from,
{
    if 0 <= from < input.len() && in_class(class, input[from]) {
        run_end(input, class, from + 1)
    } else {
        from
    }
}

/// Whether the character at index `i` exists and is `c`.
pub open spec fn holds_char(input: Seq<char>, i: int, c: char) -> bool {
    0 <= i < input.len() && input[i] == c
}

/// The token of this kind and text.
pub open spec fn token(kind: TokenType, text: Seq<char>) -> TokenView {
    TokenView { kind, text }
}

/// The token that every call yields once the input is used up.
pub open spec fn end_token() -> TokenView {
    token(TokenType::EOF, seq!['\0'])
}

/// A string literal whose opening quote stands at `start`. Its text is what
/// stands between the quotes.
pub open spec fn lex_string(input: Seq<char>, start: int) -> Result<(TokenView, int), LexError> {
    let close = run_end(input, CharClass::Unquoted, start + 1);
    if close < input.len() {
        Ok((token(TokenType::STRING, input.subrange(start + 1, close)), close + 1))
    } else {
        Err(LexError::UnclosedString)
    }
}

/// A number whose first digit stands at `start`: digits, and then possibly a
/// `.` with at least one digit behind it.
pub open spec fn lex_number(input: Seq<char>, start: int) -> Result<(TokenView, int), LexError> {
    let whole = run_end(input, CharClass::Digit, start);
    if holds_char(input, whole, '.') {
        if whole + 1 < input.len() && is_digit(input[whole + 1]) {
            let end = run_end(input, CharClass::Digit, whole + 1);
            Ok((token(TokenType::NUMBER, input.subrange(start, end)), end))
        } else {
            Err(LexError::InvalidNumber)
        }
    } else {
        Ok((token(TokenType::NUMBER, input.subrange(start, whole)), whole))
    }
}

/// A keyword or identifier whose first letter stands at `start`.
pub open spec fn lex_word(input: Seq<char>, start: int) -> (TokenView, int) {
    let end = run_end(input, CharClass::Alphanumeric, start + 1);
    let text = input.subrange(start, end);
    (token(word_kind(text), text), end)
}

/// Where the token read from index `from` begins: behind the whitespace that
/// stands at `from`.
pub open spec fn token_start(input: Seq<char>, from: int) -> int {
    run_end(input, CharClass::Whitespace, from)
}

/// The token read with the cursor at index `from`, and where the cursor
/// stands afterwards.
///
/// The comparator "less or equal" is written `<<` and carries the text `<=`;
/// the characters `<=` are the two tokens `<` and `=`.
pub open spec fn lex(input: Seq<char>, from: int) -> Result<(TokenView, int), LexError> {
    let start = token_start(input, from);
    if !(0 <= start < input.len()) {
        Ok((end_token(), start))
    } else {
        let c = input[start];
        if c == '+' {
            Ok((token(TokenType::PLUS, seq!['+']), start + 1))
        } else if c == '-' {
            Ok((token(TokenType::MINUS, seq!['-']), start + 1))
        } else if c == '*' {
            Ok((token(TokenType::ASTERISK, seq!['*']), start + 1))
        } else if c == '/' {
            Ok((token(TokenType::SLASH, seq!['/']), start + 1))
        } else if c == '=' {
            if holds_char(input, start + 1, '=') {
                Ok((token(TokenType::EQEQ, seq!['=', '=']), start + 2))
            } else {
                Ok((token(TokenType::EQ, seq!['=']), start + 1))
            }
        } else if c == '>' {
            if holds_char(input, start + 1, '=') {
                Ok((token(TokenType::GTEQ, seq!['>', '=']), start + 2))
            } else {
                Ok((token(TokenType::GT, seq!['>']), start + 1))
            }
        } else if c == '<' {
            if holds_char(input, start + 1, '<') {
                Ok((token(TokenType::LTEQ, seq!['<', '=']), start + 2))
            } else {
                Ok((token(TokenType::LT, seq!['<']), start + 1))
            }
        } else if c == '!' {
            if holds_char(input, start + 1, '=') {
                Ok((token(TokenType::NOTEQ, seq!['!', '=']), start + 2))
            } else {
                Err(LexError::InvalidToken)
            }
        } else if c == '"' {
            lex_string(input, start)
        } else if is_digit(c) {
            lex_number(input, start)
        } else if char_is_alphabetic(c) {
            Ok(lex_word(input, start))
        } else if c == ';' {
            Ok((token(TokenType::SEMICOLON, seq![';']), start + 1))
        } else {
            Ok((token(TokenType::ILLEGAL, Seq::empty()), start + 1))
        }
    }
}

/// The characters that a token is written with: its text, and for a string
/// literal its text between double quotes.
pub open spec fn lexeme(token: TokenView) -> Seq<char> {
    if token.kind == TokenType::STRING {
        seq!['"'] + token.text + seq!['"']
    } else {
        token.text
    }
}

/// What the run that [`run_end`] measures looks like from outside: it begins
/// at `from`, holds only characters of the class, and cannot be made longer.
pub proof fn lemma_run_end(input: Seq<char>, class: CharClass, from: int)
    requires
        0 <= from <= input.len(),
    ensures
        from <= run_end(input, class, from) <= input.len(),
        forall|i: int|
            from <= i < run_end(input, class, from) ==> in_class(class, #[trigger] input[i]),
        run_end(input, class, from) < input.len() ==> !in_class(
            class,
            input[run_end(input, class, from)],
        ),
    decreases input.len() - from,
{
    if from < input.len() && in_class(class, input[from]) {
        lemma_run_end(input, class, from + 1);
    }
}

/// Reading a token never moves the cursor backwards or past the end, and
/// every token but the end token takes at least one character.
pub proof fn lemma_lex_advances(input: Seq<char>, from: int)
    requires
        0 <= from <= input.len(),
    ensures
        lex(input, from) matches Ok((t, end)) ==> {
            &&& from <= token_start(input, from) <= end <= input.len()
            &&& t.kind != TokenType::EOF ==> token_start(input, from) < end
            &&& t.kind == TokenType::EOF ==> end == input.len()
        },
{
    let start = token_start(input, from);
    lemma_run_end(input, CharClass::Whitespace, from);
    if start < input.len() {
        lemma_run_end(input, CharClass::Unquoted, start + 1);
        lemma_run_end(input, CharClass::Digit, start);
        lemma_run_end(input, CharClass::Alphanumeric, start + 1);
        let whole = run_end(input, CharClass::Digit, start);
        if whole + 1 <= input.len() {
            lemma_run_end(input, CharClass::Digit, whole + 1);
        }
        lemma_word_kind_is_no_end(input.subrange(start, lex_word(input, start).1));
    }
}

/// A word is a keyword or an identifier.
proof fn lemma_word_kind_is_no_end(text: Seq<char>)
    ensures
        word_kind(text) != TokenType::EOF,
        word_kind(text) != TokenType::ILLEGAL,
        word_kind(text) != TokenType::LTEQ,
        word_kind(text) != TokenType::STRING,
{
}

/// Writing a token out again gives back the characters it was read from:
/// for a number, an identifier, a keyword, an operator and the semicolon the
/// token's text is the source text it covers, and a string literal is its
/// text between quotes. The three kinds left out carry a text that is not
/// their spelling: the end token, an illegal character, and "less or equal",
/// which is written `<<`.
pub proof fn lemma_lexeme_round_trip(input: Seq<char>, from: int)
    requires
        0 <= from <= input.len(),
    ensures
        lex(input, from) matches Ok((t, end)) ==> (t.kind != TokenType::EOF && t.kind
            != TokenType::ILLEGAL && t.kind != TokenType::LTEQ ==> lexeme(t) == input.subrange(
            token_start(input, from),
            end,
        )),
{
    let start = token_start(input, from);
    lemma_lex_advances(input, from);
    if start < input.len() {
        lemma_run_end(input, CharClass::Unquoted, start + 1);
        lemma_word_kind_is_no_end(input.subrange(start, lex_word(input, start).1));
        match lex(input, from) {
            Ok((t, end)) => {
                if t.kind != TokenType::EOF && t.kind != TokenType::ILLEGAL && t.kind
                    != TokenType::LTEQ {
                    assert(lexeme(t) =~= input.subrange(start, end));
                }
            },
            Err(_) => {},
        }
    }
}

/// Once the end token has been read, every later read yields it again and
/// leaves the cursor where it is.
pub proof fn lemma_end_is_final(input: Seq<char>, from: int)
    requires
        0 <= from <= input.len(),
    ensures
        lex(input, from) matches Ok((t, end)) ==> (t.kind == TokenType::EOF ==> lex(input, end)
            == Ok::<(TokenView, int), LexError>((end_token(), end))),
{
    lemma_lex_advances(input, from);
}

/// What a tokenizer is, as plain values: the source and the cursor.
pub struct LexerView {
    pub input: Seq<char>,
    pub position: int,
}

/// A cursor over the characters of a source text.
pub struct Lexer {
    input: Vec<char>,
    position: usize,
}

impl View for Lexer {
    type V = LexerView;

    closed spec fn view(&self) -> LexerView {
        LexerView { input: self.input@, position: self.position as int }
    }
}

impl Lexer {
    #[verifier::type_invariant]
    spec fn cursor_in_source(&self) -> bool {
        self.position <= self.input.len()
    }

    /// The cursor never leaves the source.
    pub open spec fn wf(&self) -> bool {
        0 <= self@.position <= self@.input.len()
    }

    /// A tokenizer at the beginning of `input`.
    pub fn new(input: Vec<char>) -> (lexer: Lexer)
        ensures
            lexer@ == (LexerView { input: input@, position: 0 }),
            lexer.wf(),
    {
        Lexer { input: input, position: 0 }
    }

    /// Reads the next token and moves the cursor behind it. At the end of
    /// the input the end token is returned, on this call and on every later
    /// one. Where the characters at the cursor are no token, the error says
    /// why and the cursor stays where it was.
    pub fn get_token(&mut self) -> (result: Result<Token, LexError>)
        ensures
            old(self).wf(),
            final(self).wf(),
            final(self)@.input == old(self)@.input,
            match lex(old(self)@.input, old(self)@.position) {
                Ok((t, end)) => result matches Ok(token) && token@ == t && final(self)@.position
                    == end,
                Err(e) => result == Err::<Token, LexError>(e) && final(self)@.position == old(self)@.position,
            },
    {
        proof {
            use_type_invariant(&*self);
            lemma_lex_advances(self@.input, self@.position);
        }
        let mut start = self.position;
        while self.is_next_whitespace(start)
            invariant
                self.position <= start <= self.input.len(),
                token_start(self.input@, self.position as int) == token_start(
                    self.input@,
                    start as int,
                ),
            decreases self.input@.len() - start,
        {
            start += 1;
        }
        proof {
            reveal_strlit("\0");
            assert("\0"@ =~= seq!['\0']);
        }
        let (token, end) = if start >= self.input.len() {
            (Token::new(TokenType::EOF, Self::literal("\0")), start)
        } else {
            let c = self.input[start];
            proof {
                reveal_strlit("+");
                reveal_strlit("-");
                reveal_strlit("*");
                reveal_strlit("/");
                reveal_strlit("=");
                reveal_strlit("==");
                reveal_strlit(">");
                reveal_strlit(">=");
                reveal_strlit("<");
                reveal_strlit("<=");
                reveal_strlit("!=");
                reveal_strlit(";");
                reveal_strlit("");
                assert("+"@ =~= seq!['+']);
                assert("-"@ =~= seq!['-']);
                assert("*"@ =~= seq!['*']);
                assert("/"@ =~= seq!['/']);
                assert("="@ =~= seq!['=']);
                assert("=="@ =~= seq!['=', '=']);
                assert(">"@ =~= seq!['>']);
                assert(">="@ =~= seq!['>', '=']);
                assert("<"@ =~= seq!['<']);
                assert("<="@ =~= seq!['<', '=']);
                assert("!="@ =~= seq!['!', '=']);
                assert(";"@ =~= seq![';']);
                assert(""@ =~= Seq::<char>::empty());
            }
            if c == '+' {
                (Token::new(TokenType::PLUS, Self::literal("+")), start + 1)
            } else if c == '-' {
                (Token::new(TokenType::MINUS, Self::literal("-")), start + 1)
            } else if c == '*' {
                (Token::new(TokenType::ASTERISK, Self::literal("*")), start + 1)
            } else if c == '/' {
                (Token::new(TokenType::SLASH, Self::literal("/")), start + 1)
            } else if c == '=' {
                if self.is_next_check(start + 1, '=') {
                    (Token::new(TokenType::EQEQ, Self::literal("==")), start + 2)
                } else {
                    (Token::new(TokenType::EQ, Self::literal("=")), start + 1)
                }
            } else if c == '>' {
                if self.is_next_check(start + 1, '=') {
                    (Token::new(TokenType::GTEQ, Self::literal(">=")), start + 2)
                } else {
                    (Token::new(TokenType::GT, Self::literal(">")), start + 1)
                }
            } else if c == '<' {
                if self.is_next_check(start + 1, '<') {
                    (Token::new(TokenType::LTEQ, Self::literal("<=")), start + 2)
                } else {
                    (Token::new(TokenType::LT, Self::literal("<")), start + 1)
                }
            } else if c == '!' {
                if self.is_next_check(start + 1, '=') {
                    (Token::new(TokenType::NOTEQ, Self::literal("!=")), start + 2)
                } else {
                    return Err(LexError::InvalidToken);
                }
            } else if c == '"' {
                match self.process_string(start) {
                    Ok(found) => found,
                    Err(e) => {
                        return Err(e);
                    },
                }
            } else if is_ascii_digit(c) {
                match self.process_number(start) {
                    Ok(found) => found,
                    Err(e) => {
                        return Err(e);
                    },
                }
            } else if c.is_alphabetic() {
                self.process_alpha(start)
            } else if c == ';' {
                (Token::new(TokenType::SEMICOLON, Self::literal(";")), start + 1)
            } else {
                (Token::new(TokenType::ILLEGAL, Self::literal("")), start + 1)
            }
        };
        self.position = end;
        Ok(token)
    }

    /// Where the cursor stands.
    pub(crate) fn position(&self) -> (at: usize)
        ensures
            self.wf(),
            at == self@.position,
    {
        proof {
            use_type_invariant(self);
        }
        self.position
    }

    /// Puts the cursor at `position`.
    pub(crate) fn seek(&mut self, position: usize)
        requires
            position <= old(self)@.input.len(),
        ensures
            final(self)@ == (LexerView { input: old(self)@.input, position: position as int }),
    {
        self.position = position;
    }

    /// Whether any character, whitespace included, is left to read.
    pub fn has_next_token(&self) -> (more: bool)
        ensures
            self.wf(),
            more == (self@.position < self@.input.len()),
    {
        proof {
            use_type_invariant(self);
        }
        self.position < self.input.len()
    }

    /// The text of a token that is always written the same way.
    fn literal(text: &str) -> (owned: String)
        ensures
            owned@ == text@,
    {
        String::from_str(text)
    }

    fn process_string(&self, start: usize) -> (result: Result<(Token, usize), LexError>)
        requires
            start < self.input.len(),
        ensures
            match lex_string(self.input@, start as int) {
                Ok((t, end)) => result matches Ok((token, after)) && token@ == t && after == end,
                Err(e) => result == Err::<(Token, usize), LexError>(e),
            },
    {
        let mut value = String::new();
        let mut at = start + 1;
        while at < self.input.len() && self.input[at] != '"'
            invariant
                start < at <= self.input.len(),
                value@ == self.input@.subrange(start + 1, at as int),
                run_end(self.input@, CharClass::Unquoted, start + 1) == run_end(
                    self.input@,
                    CharClass::Unquoted,
                    at as int,
                ),
            decreases self.input@.len() - at,
        {
            value.push(self.input[at]);
            at += 1;
            assert(value@ =~= self.input@.subrange(start + 1, at as int));
        }
        if at >= self.input.len() {
            Err(LexError::UnclosedString)
        } else {
            Ok((Token::new(TokenType::STRING, value), at + 1))
        }
    }

    fn process_number(&self, start: usize) -> (result: Result<(Token, usize), LexError>)
        requires
            start < self.input.len(),
            is_digit(self.input@[start as int]),
        ensures
            match lex_number(self.input@, start as int) {
                Ok((t, end)) => result matches Ok((token, after)) && token@ == t && after == end,
                Err(e) => result == Err::<(Token, usize), LexError>(e),
            },
    {
        let mut value = String::new();
        let mut at = start;
        while self.is_next_digit(at)
            invariant
                start <= at <= self.input.len(),
                value@ == self.input@.subrange(start as int, at as int),
                run_end(self.input@, CharClass::Digit, start as int) == run_end(
                    self.input@,
                    CharClass::Digit,
                    at as int,
                ),
            decreases self.input@.len() - at,
        {
            value.push(self.input[at]);
            at += 1;
            assert(value@ =~= self.input@.subrange(start as int, at as int));
        }
        if self.is_next_check(at, '.') {
            value.push(self.input[at]);
            at += 1;
            assert(value@ =~= self.input@.subrange(start as int, at as int));
            if !self.is_next_digit(at) {
                return Err(LexError::InvalidNumber);
            }
            let ghost fraction = at as int;
            while self.is_next_digit(at)
                invariant
                    start <= at <= self.input.len(),
                    value@ == self.input@.subrange(start as int, at as int),
                    run_end(self.input@, CharClass::Digit, fraction) == run_end(
                        self.input@,
                        CharClass::Digit,
                        at as int,
                    ),
                decreases self.input@.len() - at,
            {
                value.push(self.input[at]);
                at += 1;
                assert(value@ =~= self.input@.subrange(start as int, at as int));
            }
        }
        Ok((Token::new(TokenType::NUMBER, value), at))
    }

    fn process_alpha(&self, start: usize) -> (found: (Token, usize))
        requires
            start < self.input.len(),
        ensures
            found.0@ == lex_word(self.input@, start as int).0,
            found.1 == lex_word(self.input@, start as int).1,
    {
        let mut value = String::new();
        value.push(self.input[start]);
        let mut at = start + 1;
        assert(value@ =~= self.input@.subrange(start as int, at as int));
        while self.is_next_alphanumeric(at)
            invariant
                start < at <= self.input.len(),
                value@ == self.input@.subrange(start as int, at as int),
                run_end(self.input@, CharClass::Alphanumeric, start + 1) == run_end(
                    self.input@,
                    CharClass::Alphanumeric,
                    at as int,
                ),
            decreases self.input@.len() - at,
        {
            value.push(self.input[at]);
            at += 1;
            assert(value@ =~= self.input@.subrange(start as int, at as int));
        }
        let token_type = TokenType::get_keyword_token(value.as_str());
        match token_type {
            Some(t) => (Token::new(t, value), at),
            None => (Token::new(TokenType::IDENT, value), at),
        }
    }

    fn is_next_whitespace(&self, at: usize) -> (r: bool)
        ensures
            r == (at < self.input@.len() && char_is_whitespace(self.input@[at as int])),
    {
        at < self.input.len() && self.input[at].is_whitespace()
    }

    fn is_next_alphanumeric(&self, at: usize) -> (r: bool)
        ensures
            r == (at < self.input@.len() && char_is_alphanumeric(self.input@[at as int])),
    {
        at < self.input.len() && self.input[at].is_alphanumeric()
    }

    fn is_next_digit(&self, at: usize) -> (r: bool)
        ensures
            r == (at < self.input@.len() && is_digit(self.input@[at as int])),
    {
        at < self.input.len() && is_ascii_digit(self.input[at])
    }

    fn is_next_check(&self, at: usize, check: char) -> (r: bool)
        ensures
            r == holds_char(self.input@, at as int, check),
    {
        at < self.input.len() && self.input[at] == check
    }
}

} // verus!
