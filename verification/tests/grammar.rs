use goblin::grammar::{int_to_string, Source, Token};
use goblin::lexer::Lexer;

#[test]
fn grammar_operators() {
    assert!(Token::is_operator('.'));
    assert!(Token::is_operator('+'));
    assert!(!Token::is_operator('a'));
    assert!(!Token::is_operator('?'));
}

#[test]
fn grammar_keywords() {
    assert_eq!(Token::from_ident("if".to_string()), Token::If);
    assert_eq!(Token::from_ident("self".to_string()), Token::SelfRef);
    assert_eq!(Token::from_ident("set".to_string()), Token::SetKeyword);
    assert_eq!(
        Token::from_ident("iffy".to_string()),
        Token::Identifier("iffy".to_string())
    );
}

#[test]
fn grammar_key_parts() {
    assert_eq!(Token::Integer(-42).key_part(), Some("-42".to_string()));
    assert_eq!(Token::Integer(0).key_part(), Some("0".to_string()));
    assert_eq!(
        Token::Integer(i64::MIN).key_part(),
        Some("-9223372036854775808".to_string())
    );
    assert_eq!(Token::Return.key_part(), Some("return".to_string()));
    assert_eq!(
        Token::Operator("+".to_string()).key_part(),
        Some("+".to_string())
    );
    assert_eq!(Token::String("s".to_string()).key_part(), None);
    assert_eq!(Token::Colon.key_part(), None);
}

#[test]
fn grammar_int_to_string() {
    assert_eq!(int_to_string(1234567890), "1234567890".to_string());
    assert_eq!(int_to_string(i64::MAX), i64::MAX.to_string());
}

#[test]
fn grammar_with_source() {
    let t = Token::On.with_source(Source::new(3, 2));
    assert_eq!(t.token, Token::On);
    assert_eq!(t.source, Source::new(3, 2));
}

#[test]
fn grammar_in_context() {
    let text = "let x := 1\nlet yy := foo{bar}\nz";
    // index 15 is the first `y` on the second line; the excerpt runs from the line feed
    // before it to the end of its line
    let ctx = Source::new(15, 2).in_context(text);
    assert_eq!(
        format!("{:?}", ctx),
        "SourceContext { context: \"\\nlet yy := foo{bar}\", line: 2, column: 5 }"
    );
    // without a line feed after it, the excerpt ends ten characters on
    let ctx = Source::new(12, 1).in_context("abcdefghijklmnopqrstuvwxyz");
    assert_eq!(
        format!("{:?}", ctx),
        "SourceContext { context: \"cdefghijklmnopqrstuv\", line: 1, column: 12 }"
    );
}

#[test]
fn lexer_full_grammar() {
    assert_eq!(
        Lexer::lex("if x then \"a b\" else _odd name_ end ? a.b".to_string()),
        vec![
            Token::If,
            Token::Identifier("x".to_string()),
            Token::Then,
            Token::String("a b".to_string()),
            Token::Else,
            Token::QuotedIdentifier("odd name".to_string()),
            Token::End,
            Token::QuestionMark,
            Token::Identifier("a".to_string()),
            Token::Operator(".".to_string()),
            Token::Identifier("b".to_string()),
        ]
    );
}

#[test]
fn lexer_unterminated_string_fails() {
    assert_eq!(Lexer::try_lex("\"open".to_string()), None);
    assert_eq!(Lexer::try_lex("_open".to_string()), None);
}

#[test]
fn lexer_comments() {
    assert_eq!(
        Lexer::lex("true # yes\nfalse".to_string()),
        vec![Token::True, Token::False]
    );
}

#[test]
fn grammar_in_context_non_ascii() {
    // the excerpt is cut from the text's bytes at the character positions: with a
    // two-byte character before the place, the cut lands one byte further back
    let text = "é123456789012345678901234567890";
    let ctx = Source::new(12, 1).in_context(text);
    assert_eq!(
        format!("{:?}", ctx),
        "SourceContext { context: \"12345678901234567890\", line: 1, column: 12 }"
    );
}
