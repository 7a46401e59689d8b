// The tokenizer, token by token.

use tiny_interpreter::interpreter::lexer::LexError;
use tiny_interpreter::interpreter::lexer::Lexer;
use tiny_interpreter::interpreter::token::Token;
use tiny_interpreter::interpreter::token::TokenType;

fn lexer(source: &str) -> Lexer {
    Lexer::new(source.chars().collect())
}

// Reads tokens up to and including the first end token.
fn tokens(source: &str) -> Vec<(TokenType, String)> {
    let mut lexer = lexer(source);
    let mut found = Vec::new();
    loop {
        let token = lexer.get_token().expect("a token");
        let kind = *token.get_token_type();
        found.push((kind, String::from(token.get_token_text())));
        if kind == TokenType::EOF {
            return found;
        }
    }
}

fn kinds(source: &str) -> Vec<TokenType> {
    tokens(source).into_iter().map(|(kind, _)| kind).collect()
}

fn texts(source: &str) -> Vec<String> {
    tokens(source).into_iter().map(|(_, text)| text).collect()
}

#[test]
fn single_character_operators() {
    assert_eq!(
        tokens("+ - * / ;"),
        vec![
            (TokenType::PLUS, String::from("+")),
            (TokenType::MINUS, String::from("-")),
            (TokenType::ASTERISK, String::from("*")),
            (TokenType::SLASH, String::from("/")),
            (TokenType::SEMICOLON, String::from(";")),
            (TokenType::EOF, String::from("\0")),
        ]
    );
}

#[test]
fn one_and_two_character_forms() {
    assert_eq!(
        tokens("= == > >= < !="),
        vec![
            (TokenType::EQ, String::from("=")),
            (TokenType::EQEQ, String::from("==")),
            (TokenType::GT, String::from(">")),
            (TokenType::GTEQ, String::from(">=")),
            (TokenType::LT, String::from("<")),
            (TokenType::NOTEQ, String::from("!=")),
            (TokenType::EOF, String::from("\0")),
        ]
    );
}

// A documented choice: "less or equal" is written `<<`. Its token carries
// the text `<=`, and the characters `<=` are two tokens.
#[test]
fn less_or_equal_is_written_with_two_less_signs() {
    assert_eq!(
        tokens("<<"),
        vec![(TokenType::LTEQ, String::from("<=")), (TokenType::EOF, String::from("\0"))]
    );
    assert_eq!(kinds("<="), vec![TokenType::LT, TokenType::EQ, TokenType::EOF]);
    assert_eq!(kinds("<<<"), vec![TokenType::LTEQ, TokenType::LT, TokenType::EOF]);
}

#[test]
fn two_character_forms_need_no_space_around_them() {
    assert_eq!(
        kinds("a>=b==c"),
        vec![
            TokenType::IDENT,
            TokenType::GTEQ,
            TokenType::IDENT,
            TokenType::EQEQ,
            TokenType::IDENT,
            TokenType::EOF
        ]
    );
    assert_eq!(kinds("==="), vec![TokenType::EQEQ, TokenType::EQ, TokenType::EOF]);
}

#[test]
fn bang_without_equals_is_an_error() {
    assert_eq!(lexer("!").get_token().unwrap_err(), LexError::InvalidToken);
    assert_eq!(lexer("! =").get_token().unwrap_err(), LexError::InvalidToken);
    assert_eq!(lexer("  !x").get_token().unwrap_err(), LexError::InvalidToken);
}

#[test]
fn string_text_excludes_the_quotes() {
    assert_eq!(
        tokens("\"hello world\""),
        vec![
            (TokenType::STRING, String::from("hello world")),
            (TokenType::EOF, String::from("\0"))
        ]
    );
    assert_eq!(tokens("\"\"")[0], (TokenType::STRING, String::new()));
    assert_eq!(tokens("\"a;b = 1\"")[0], (TokenType::STRING, String::from("a;b = 1")));
}

#[test]
fn unterminated_string_is_an_error() {
    assert_eq!(lexer("\"abc").get_token().unwrap_err(), LexError::UnclosedString);
    assert_eq!(lexer("\"abc\n").get_token().unwrap_err(), LexError::UnclosedString);
}

#[test]
fn opening_quote_at_the_very_end_is_an_error() {
    assert_eq!(lexer("\"").get_token().unwrap_err(), LexError::UnclosedString);
}

#[test]
fn numbers_whole_and_decimal() {
    assert_eq!(
        tokens("0 12 3.5 007.250"),
        vec![
            (TokenType::NUMBER, String::from("0")),
            (TokenType::NUMBER, String::from("12")),
            (TokenType::NUMBER, String::from("3.5")),
            (TokenType::NUMBER, String::from("007.250")),
            (TokenType::EOF, String::from("\0")),
        ]
    );
}

#[test]
fn a_point_needs_a_digit_behind_it() {
    assert_eq!(lexer("1.").get_token().unwrap_err(), LexError::InvalidNumber);
    assert_eq!(lexer("1.x").get_token().unwrap_err(), LexError::InvalidNumber);
    assert_eq!(lexer("1. 5").get_token().unwrap_err(), LexError::InvalidNumber);
}

#[test]
fn a_second_point_ends_the_number() {
    assert_eq!(
        tokens("1.5.2"),
        vec![
            (TokenType::NUMBER, String::from("1.5")),
            (TokenType::ILLEGAL, String::new()),
            (TokenType::NUMBER, String::from("2")),
            (TokenType::EOF, String::from("\0")),
        ]
    );
}

#[test]
fn a_number_has_no_sign_and_no_exponent() {
    assert_eq!(kinds("-5"), vec![TokenType::MINUS, TokenType::NUMBER, TokenType::EOF]);
    assert_eq!(
        tokens("1e5"),
        vec![
            (TokenType::NUMBER, String::from("1")),
            (TokenType::IDENT, String::from("e5")),
            (TokenType::EOF, String::from("\0")),
        ]
    );
}

#[test]
fn keywords_in_any_case_keep_their_text() {
    assert_eq!(
        tokens("let LET Print eLsEiF"),
        vec![
            (TokenType::LET, String::from("let")),
            (TokenType::LET, String::from("LET")),
            (TokenType::PRINT, String::from("Print")),
            (TokenType::ELSEIF, String::from("eLsEiF")),
            (TokenType::EOF, String::from("\0")),
        ]
    );
    assert_eq!(
        kinds("end if then while else"),
        vec![
            TokenType::END,
            TokenType::IF,
            TokenType::THEN,
            TokenType::WHILE,
            TokenType::ELSE,
            TokenType::EOF
        ]
    );
}

#[test]
fn identifiers_keep_their_case() {
    assert_eq!(
        tokens("Foo bar2 lettuce"),
        vec![
            (TokenType::IDENT, String::from("Foo")),
            (TokenType::IDENT, String::from("bar2")),
            (TokenType::IDENT, String::from("lettuce")),
            (TokenType::EOF, String::from("\0")),
        ]
    );
}

#[test]
fn identifiers_may_use_letters_and_digits_of_any_script() {
    assert_eq!(tokens("été")[0], (TokenType::IDENT, String::from("été")));
    assert_eq!(tokens("x٣")[0], (TokenType::IDENT, String::from("x٣")));
    // a digit of another script continues a name, but begins neither a
    // name nor a number
    assert_eq!(kinds("٣"), vec![TokenType::ILLEGAL, TokenType::EOF]);
}

#[test]
fn upper_casing_follows_unicode() {
    // the long s has the capital S as its upper-case form
    assert_eq!(TokenType::get_keyword_token("el\u{17f}e"), Some(TokenType::ELSE));
    assert_eq!(tokens("el\u{17f}e")[0], (TokenType::ELSE, String::from("el\u{17f}e")));
}

#[test]
fn an_underscore_is_no_part_of_a_name() {
    assert_eq!(
        kinds("x_1"),
        vec![TokenType::IDENT, TokenType::ILLEGAL, TokenType::NUMBER, TokenType::EOF]
    );
}

#[test]
fn other_characters_are_illegal_tokens_with_empty_text() {
    assert_eq!(
        tokens("@ ( )"),
        vec![
            (TokenType::ILLEGAL, String::new()),
            (TokenType::ILLEGAL, String::new()),
            (TokenType::ILLEGAL, String::new()),
            (TokenType::EOF, String::from("\0")),
        ]
    );
}

#[test]
fn whitespace_of_any_kind_is_skipped() {
    assert_eq!(
        kinds(" \t\r\n print\u{2003}\u{a0}1 ;\n"),
        vec![TokenType::PRINT, TokenType::NUMBER, TokenType::SEMICOLON, TokenType::EOF]
    );
}

#[test]
fn end_of_input_is_final() {
    let mut lexer = lexer("x  ");
    assert_eq!(*lexer.get_token().unwrap().get_token_type(), TokenType::IDENT);
    for _ in 0..5 {
        let token = lexer.get_token().unwrap();
        assert_eq!(*token.get_token_type(), TokenType::EOF);
        assert_eq!(token.get_token_text(), "\0");
    }
}

#[test]
fn empty_input_is_at_its_end() {
    let mut lexer = lexer("");
    assert!(!lexer.has_next_token());
    assert_eq!(*lexer.get_token().unwrap().get_token_type(), TokenType::EOF);
    assert_eq!(*lexer.get_token().unwrap().get_token_type(), TokenType::EOF);
}

#[test]
fn has_next_token_sees_characters_not_tokens() {
    let mut lexer = lexer("x ");
    assert!(lexer.has_next_token());
    lexer.get_token().unwrap();
    // one space is left
    assert!(lexer.has_next_token());
    lexer.get_token().unwrap();
    assert!(!lexer.has_next_token());
}

#[test]
fn an_error_leaves_the_cursor_in_place() {
    let mut lexer = lexer("x \"abc");
    assert_eq!(*lexer.get_token().unwrap().get_token_type(), TokenType::IDENT);
    assert_eq!(lexer.get_token().unwrap_err(), LexError::UnclosedString);
    assert_eq!(lexer.get_token().unwrap_err(), LexError::UnclosedString);
    assert!(lexer.has_next_token());
}

#[test]
fn token_texts_spell_the_source_again() {
    let source = "let total=3.25*count-1;while total>=0 then print \"done\";end";
    let mut spelled = String::new();
    for (kind, text) in tokens(source) {
        match kind {
            TokenType::EOF => {}
            TokenType::STRING => {
                spelled.push('"');
                spelled.push_str(&text);
                spelled.push('"');
            }
            _ => spelled.push_str(&text),
        }
    }
    let squeezed: String = source.chars().filter(|c| !c.is_whitespace()).collect();
    assert_eq!(spelled, squeezed);
}

#[test]
fn texts_of_a_statement() {
    assert_eq!(texts("let x = 10;"), vec!["let", "x", "=", "10", ";", "\0"]);
}

#[test]
fn keyword_lookup() {
    assert_eq!(TokenType::get_keyword_token("let"), Some(TokenType::LET));
    assert_eq!(TokenType::get_keyword_token("PRINT"), Some(TokenType::PRINT));
    assert_eq!(TokenType::get_keyword_token("End"), Some(TokenType::END));
    assert_eq!(TokenType::get_keyword_token("iF"), Some(TokenType::IF));
    assert_eq!(TokenType::get_keyword_token("then"), Some(TokenType::THEN));
    assert_eq!(TokenType::get_keyword_token("while"), Some(TokenType::WHILE));
    assert_eq!(TokenType::get_keyword_token("elseif"), Some(TokenType::ELSEIF));
    assert_eq!(TokenType::get_keyword_token("else"), Some(TokenType::ELSE));
    assert_eq!(TokenType::get_keyword_token("elsewhere"), None);
    assert_eq!(TokenType::get_keyword_token(""), None);
    assert_eq!(TokenType::get_keyword_token("le"), None);
}

#[test]
fn keyword_from_upper_compares_as_given() {
    assert_eq!(TokenType::keyword_from_upper("LET"), Some(TokenType::LET));
    assert_eq!(TokenType::keyword_from_upper("let"), None);
    assert_eq!(TokenType::keyword_from_upper("LEX"), None);
    assert_eq!(TokenType::keyword_from_upper("ELSEIF"), Some(TokenType::ELSEIF));
    assert_eq!(TokenType::keyword_from_upper("ELSE"), Some(TokenType::ELSE));
}

#[test]
fn tokens_compare_by_kind_and_text() {
    let a = Token::new(TokenType::IDENT, String::from("x"));
    let b = Token::new(TokenType::IDENT, String::from("x"));
    let c = Token::new(TokenType::IDENT, String::from("y"));
    let d = Token::new(TokenType::STRING, String::from("x"));
    assert_eq!(a, b);
    assert_ne!(a, c);
    assert_ne!(a, d);
    assert_eq!(a.clone(), a);
    assert_eq!(*a.get_token_type(), TokenType::IDENT);
    assert_eq!(a.get_token_text(), "x");
}
