use viering_compiler::lexer::{Lexer, LexerError, Token, TokenType};

fn lex(code: &str) -> Result<Vec<Token>, LexerError> {
    Lexer::new(code.to_string()).tokenize()
}

fn kinds(code: &str) -> Vec<TokenType> {
    lex(code).unwrap().into_iter().map(|t| t.token_type).collect()
}

#[test]
fn lex_punctuation() {
    assert_eq!(
        kinds("+-*/!(){}"),
        vec![
            TokenType::Plus,
            TokenType::Minus,
            TokenType::Star,
            TokenType::Slash,
            TokenType::Bang,
            TokenType::OpenParen,
            TokenType::CloseParen,
            TokenType::OpenBrace,
            TokenType::CloseBrace,
        ]
    );
}

#[test]
fn lex_keywords_and_identifiers() {
    assert_eq!(
        kinds("var x1_y print if loop break prev true false iffy"),
        vec![
            TokenType::Var,
            TokenType::Identifier("x1_y".to_string()),
            TokenType::Print,
            TokenType::If,
            TokenType::Loop,
            TokenType::Break,
            TokenType::Previous,
            TokenType::Bool(true),
            TokenType::Bool(false),
            TokenType::Identifier("iffy".to_string()),
        ]
    );
}

#[test]
fn lex_integers() {
    assert_eq!(kinds("12345"), vec![TokenType::Integer(12345)]);
    assert_eq!(kinds("007"), vec![TokenType::Integer(7)]);
    assert_eq!(
        kinds("9223372036854775807"),
        vec![TokenType::Integer(i64::MAX)]
    );
    assert_eq!(
        kinds("5)"),
        vec![TokenType::Integer(5), TokenType::CloseParen]
    );
}

#[test]
fn lex_integer_too_large_is_invalid_number() {
    assert_eq!(
        lex("9223372036854775808").unwrap_err(),
        LexerError::InvalidNumber(0)
    );
}

#[test]
fn lex_digits_followed_by_letter_fail() {
    assert_eq!(lex("var x = 5a!").unwrap_err(), LexerError::InvalidNumber(3));
    assert_eq!(lex("12_").unwrap_err(), LexerError::InvalidNumber(0));
}

#[test]
fn lex_operator_runs() {
    assert_eq!(
        kinds("= == ; ;= =; === a==5"),
        vec![
            TokenType::Equal,
            TokenType::EqualEqual,
            TokenType::Semicolon,
            TokenType::SemicolonEqual,
            TokenType::Invalid,
            TokenType::Invalid,
            TokenType::Identifier("a".to_string()),
            TokenType::EqualEqual,
            TokenType::Integer(5),
        ]
    );
}

#[test]
fn lex_strings() {
    assert_eq!(
        kinds("\"hi there\" x"),
        vec![
            TokenType::String("hi there".to_string()),
            TokenType::Identifier("x".to_string()),
        ]
    );
    assert_eq!(kinds("\"abc"), vec![TokenType::String("abc".to_string())]);
    assert_eq!(kinds("\"\""), vec![TokenType::String(String::new())]);
}

#[test]
fn lex_unknown_characters_are_invalid_tokens() {
    assert_eq!(
        kinds("# \r @"),
        vec![TokenType::Invalid, TokenType::Invalid, TokenType::Invalid]
    );
}

#[test]
fn lex_white_space_only() {
    assert!(kinds("").is_empty());
    assert!(kinds("  \n\t ").is_empty());
}

#[test]
fn lex_numbers_tokens_in_order() {
    let tokens = lex("var a = 10!").unwrap();
    let indices: Vec<usize> = tokens.iter().map(|t| t.index).collect();
    assert_eq!(indices, vec![0, 1, 2, 3, 4]);
}

#[test]
fn lex_precedence_example() {
    assert_eq!(
        kinds("2 + 3 * 4"),
        vec![
            TokenType::Integer(2),
            TokenType::Plus,
            TokenType::Integer(3),
            TokenType::Star,
            TokenType::Integer(4),
        ]
    );
}

#[test]
fn token_kind_debug_form() {
    let mut out = String::new();
    TokenType::Identifier("ab".to_string()).push_debug(&mut out);
    out.push(' ');
    TokenType::Integer(-12).push_debug(&mut out);
    out.push(' ');
    TokenType::String("a\"b".to_string()).push_debug(&mut out);
    assert_eq!(out, "Identifier(\"ab\") Integer(-12) String(\"a\\\"b\")");
}

#[test]
fn lex_unicode_character_classes() {
    assert_eq!(
        kinds("x\u{e9}y"),
        vec![TokenType::Identifier("x\u{e9}y".to_string())]
    );
    assert_eq!(lex("5\u{e9}").unwrap_err(), LexerError::InvalidNumber(0));
    assert_eq!(lex("a 1\u{b2}").unwrap_err(), LexerError::InvalidNumber(1));
    assert_eq!(
        kinds("=\u{a0}1"),
        vec![TokenType::Equal, TokenType::Invalid, TokenType::Integer(1)]
    );
    assert_eq!(
        kinds("=\u{2}="),
        vec![TokenType::Invalid]
    );
}

#[test]
fn lexer_error_messages() {
    assert_eq!(
        lex("var x = 5a!").unwrap_err().to_message(),
        "Error: InvalidNumber. At: 3"
    );
    assert_eq!(
        LexerError::InvalidNumber(1234).to_message(),
        "Error: InvalidNumber. At: 1234"
    );
    assert_eq!(
        LexerError::InsignificantToken.to_message(),
        "Error: InsignificantToken"
    );
}

#[test]
fn lex_again_after_end_gives_no_tokens() {
    let mut lexer = Lexer::new("print 1!".to_string());
    assert_eq!(lexer.tokenize().unwrap().len(), 3);
    assert!(lexer.tokenize().unwrap().is_empty());
}
