//! Lexical tokens: a kind and the text it was read from.

use vstd::prelude::*;
use crate::interpreter::text::same_text;
use crate::interpreter::text::str_to_uppercase;

verus! {

/// The kind of a token.
#[derive(Debug, PartialEq, Eq, Clone, Copy, Structural)]
pub enum TokenType {
    EOF,
    PROGRAM,
    NEWLINE,
    NUMBER,
    IDENT,
    STRING,
    SEMICOLON,
    BLOCK,
    ILLEGAL,
    // Keywords
    LET,
    PRINT,
    END,
    IF,
    THEN,
    WHILE,
    ELSEIF,
    ELSE,
    // Operators
    EQ,
    PLUS,
    MINUS,
    ASTERISK,
    SLASH,
    EQEQ,
    NOTEQ,
    LT,
    LTEQ,
    GT,
    GTEQ,
}

/// The keyword that an upper-case text spells, if any.
pub open spec fn keyword_of(upper: Seq<char>) -> Option<TokenType> {
    if upper == seq!['L', 'E', 'T'] {
        Some(TokenType::LET)
    } else if upper == seq!['P', 'R', 'I', 'N', 'T'] {
        Some(TokenType::PRINT)
    } else if upper == seq!['E', 'N', 'D'] {
        Some(TokenType::END)
    } else if upper == seq!['I', 'F'] {
        Some(TokenType::IF)
    } else if upper == seq!['T', 'H', 'E', 'N'] {
        Some(TokenType::THEN)
    } else if upper == seq!['W', 'H', 'I', 'L', 'E'] {
        Some(TokenType::WHILE)
    } else if upper == seq!['E', 'L', 'S', 'E', 'I', 'F'] {
        Some(TokenType::ELSEIF)
    } else if upper == seq!['E', 'L', 'S', 'E'] {
        Some(TokenType::ELSE)
    } else {
        None
    }
}

/// The kind of a word: the keyword whose spelling its upper-case form is,
/// and an identifier otherwise.
pub open spec fn word_kind(text: Seq<char>) -> TokenType {
    match keyword_of(str_to_uppercase(text)) {
        Some(kind) => kind,
        None => TokenType::IDENT,
    }
}

impl TokenType {
    /// The keyword spelled by `upper`, which is compared as it stands.
    pub fn keyword_from_upper(upper: &str) -> (r: Option<TokenType>)
        ensures
            r == keyword_of(upper@),
    {
        proof {
            reveal_strlit("LET");
            reveal_strlit("PRINT");
            reveal_strlit("END");
            reveal_strlit("IF");
            reveal_strlit("THEN");
            reveal_strlit("WHILE");
            reveal_strlit("ELSEIF");
            reveal_strlit("ELSE");
            assert("LET"@ =~= seq!['L', 'E', 'T']);
            assert("PRINT"@ =~= seq!['P', 'R', 'I', 'N', 'T']);
            assert("END"@ =~= seq!['E', 'N', 'D']);
            assert("IF"@ =~= seq!['I', 'F']);
            assert("THEN"@ =~= seq!['T', 'H', 'E', 'N']);
            assert("WHILE"@ =~= seq!['W', 'H', 'I', 'L', 'E']);
            assert("ELSEIF"@ =~= seq!['E', 'L', 'S', 'E', 'I', 'F']);
            assert("ELSE"@ =~= seq!['E', 'L', 'S', 'E']);
        }
        if same_text(upper, "LET") {
            Some(TokenType::LET)
        } else if same_text(upper, "PRINT") {
            Some(TokenType::PRINT)
        } else if same_text(upper, "END") {
            Some(TokenType::END)
        } else if same_text(upper, "IF") {
            Some(TokenType::IF)
        } else if same_text(upper, "THEN") {
            Some(TokenType::THEN)
        } else if same_text(upper, "WHILE") {
            Some(TokenType::WHILE)
        } else if same_text(upper, "ELSEIF") {
            Some(TokenType::ELSEIF)
        } else if same_text(upper, "ELSE") {
            Some(TokenType::ELSE)
        } else {
            None
        }
    }

    /// The keyword that `text` spells in any mix of upper and lower case.
    pub fn get_keyword_token(text: &str) -> (r: Option<TokenType>)
        ensures
            r == keyword_of(str_to_uppercase(text@)),
    {
        let upper_text = text.to_uppercase();
        TokenType::keyword_from_upper(upper_text.as_str())
    }
}

/// What a token is, as plain values.
pub struct TokenView {
    pub kind: TokenType,
    pub text: Seq<char>,
}

/// A token: its kind and its text.
#[derive(Debug)]
pub struct Token {
    token_type: TokenType,
    token_text: String,
}

impl View for Token {
    type V = TokenView;

    closed spec fn view(&self) -> TokenView {
        TokenView { kind: self.token_type, text: self.token_text@ }
    }
}

impl Token {
    /// The token of this kind and text.
    pub fn new(token_type: TokenType, token_text: String) -> (token: Token)
        ensures
            token@ == (TokenView { kind: token_type, text: token_text@ }),
    {
        Token { token_type: token_type, token_text: token_text }
    }

    /// The kind of the token.
    pub fn get_token_type(&self) -> (kind: &TokenType)
        ensures
            *kind == self@.kind,
    {
        &self.token_type
    }

    /// The text of the token.
    pub fn get_token_text(&self) -> (text: &str)
        ensures
            text@ == self@.text,
    {
        self.token_text.as_str()
    }
}

impl Clone for Token {
    fn clone(&self) -> (token: Token)
        ensures
            token@ == self@,
    {
        Token { token_type: self.token_type, token_text: self.token_text.clone() }
    }
}

impl PartialEq for Token {
    fn eq(&self, other: &Token) -> (r: bool) {
        self.token_type == other.token_type && self.token_text == other.token_text
    }
}

impl vstd::std_specs::cmp::PartialEqSpecImpl for Token {
    open spec fn obeys_eq_spec() -> bool {
        true
    }

    open spec fn eq_spec(&self, other: &Token) -> bool {
        self@ == other@
    }
}

} // verus!
