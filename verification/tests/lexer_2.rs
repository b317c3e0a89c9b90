use goblin::lexer_2::{Lexer, Token};

fn ident(s: &str) -> Token {
    Token::Identifier(s.to_string())
}

fn op(s: &str) -> Token {
    Token::Operator(s.to_string())
}

#[test]
fn lexer_2_empty_text() {
    assert_eq!(Lexer::lex(String::new()), vec![]);
}

#[test]
fn lexer_2_keywords_and_names() {
    assert_eq!(
        Lexer::lex("let var do set on lets x_1 it's".to_string()),
        vec![
            Token::Let,
            Token::Var,
            Token::Do,
            Token::SetKeyword,
            Token::On,
            ident("lets"),
            ident("x_1"),
            ident("it's"),
        ]
    );
}

#[test]
fn lexer_2_punctuation_and_operators() {
    assert_eq!(
        Lexer::lex("x := {a: [1]} (+) <= -".to_string()),
        vec![
            ident("x"),
            Token::ColonEquals,
            Token::OpenBrace,
            ident("a"),
            Token::Colon,
            Token::OpenBracket,
            Token::Integer(1),
            Token::CloseBracket,
            Token::CloseBrace,
            Token::OpenParen,
            op("+"),
            Token::CloseParen,
            op("<="),
            op("-"),
        ]
    );
}

#[test]
fn lexer_2_comments_and_blank_space() {
    assert_eq!(
        Lexer::lex("1 # one\n\t2 #two".to_string()),
        vec![Token::Integer(1), Token::Integer(2)]
    );
}

#[test]
fn lexer_2_numbers() {
    assert_eq!(
        Lexer::lex("0 007 9223372036854775807".to_string()),
        vec![
            Token::Integer(0),
            Token::Integer(7),
            Token::Integer(9223372036854775807)
        ]
    );
}

#[test]
fn lexer_2_nul_ends_input() {
    assert_eq!(
        Lexer::lex("1\u{0}2".to_string()),
        vec![Token::Integer(1)]
    );
}

#[test]
fn lexer_2_try_lex_unknown_character() {
    assert_eq!(Lexer::try_lex("1 ? 2".to_string()), None);
    assert_eq!(Lexer::try_lex("1\r\n".to_string()), None);
}

#[test]
fn lexer_2_try_lex_number_too_large() {
    assert_eq!(Lexer::try_lex("9223372036854775808".to_string()), None);
}

#[test]
fn lexer_2_try_lex_ok() {
    assert_eq!(
        Lexer::try_lex("a + 1".to_string()),
        Some(vec![ident("a"), op("+"), Token::Integer(1)])
    );
}

#[test]
fn lexer_2_unicode_letters_continue_names() {
    assert_eq!(
        Lexer::lex("caf\u{e9} x\u{3b1}".to_string()),
        vec![ident("caf\u{e9}"), ident("x\u{3b1}")]
    );
}

#[test]
fn lexer_2_keyword_spelling() {
    assert_eq!(Token::Let.to_keyword(), Some("let".to_string()));
    assert_eq!(Token::On.to_keyword(), Some("on".to_string()));
    assert_eq!(Token::Colon.to_keyword(), None);
}
