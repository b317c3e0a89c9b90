use goblin::compiler_2::{Binding, Compiler, Expr, Object, Stmt};
use goblin::lexer_2::{Lexer, Token};
use goblin::parser_2::{ParseError, Parser};
use goblin::runtime_2::{Interpreter, Value};

fn assert_ok(code: Vec<Token>, expected: Vec<Stmt>) {
    assert_eq!(Parser::parse(code), Ok(expected))
}

fn assert_err(code: Vec<Token>, expected: ParseError) {
    assert_eq!(Parser::parse(code), Err(expected))
}

fn ident(str: &str) -> Token {
    Token::Identifier(str.to_string())
}

#[test]
fn parser_2_empty_program() {
    assert_ok(vec![], vec![]);
}

#[test]
fn number_literals() {
    assert_ok(
        vec![Token::Integer(123), Token::Integer(456)],
        vec![
            Stmt::Expr(Expr::Integer(123)),
            Stmt::Expr(Expr::Integer(456)),
        ],
    )
}

#[test]
fn assignment() {
    assert_ok(
        vec![Token::Let, ident("x"), Token::ColonEquals, Token::Integer(123)],
        vec![Stmt::Let(
            Binding::Identifier("x".to_string()),
            Expr::Integer(123),
        )],
    )
}

#[test]
fn unexpected_end_of_input() {
    assert_err(
        vec![Token::Let, ident("x"), Token::ColonEquals],
        ParseError::Expected("expr".to_string()),
    )
}

#[test]
fn expected_end_of_input() {
    assert_err(
        vec![Token::OpenParen],
        ParseError::ExpectedToken(Token::EndOfInput),
    )
}

fn parse_text(text: &str) -> Result<Vec<Stmt>, ParseError> {
    Parser::parse(Lexer::lex(text.to_string()))
}

fn send(target: Expr, selector: &str, args: Vec<Expr>) -> Expr {
    Expr::Send(selector.to_string(), Box::new(target), args)
}

#[test]
fn parser_2_binary_operators_left_to_right() {
    assert_eq!(
        parse_text("1 + 2 * 3"),
        Ok(vec![Stmt::Expr(send(
            send(Expr::Integer(1), "+:", vec![Expr::Integer(2)]),
            "*:",
            vec![Expr::Integer(3)]
        ))])
    );
}

#[test]
fn parser_2_prefix_operator() {
    assert_eq!(
        parse_text("-x"),
        Ok(vec![Stmt::Expr(send(Expr::Identifier("x".to_string()), "-", vec![]))])
    );
}

#[test]
fn parser_2_send_keys_in_order() {
    assert_eq!(
        parse_text("obj{to: 2 from: 1}"),
        Ok(vec![Stmt::Expr(send(
            Expr::Identifier("obj".to_string()),
            "from:to:",
            vec![Expr::Integer(1), Expr::Integer(2)]
        ))])
    );
}

#[test]
fn parser_2_unary_send_key_words() {
    assert_eq!(
        parse_text("obj{long key}"),
        Ok(vec![Stmt::Expr(send(Expr::Identifier("obj".to_string()), "long key", vec![]))])
    );
}

#[test]
fn parser_2_duplicate_key() {
    assert_eq!(
        parse_text("obj{a: 1 a: 2}"),
        Err(ParseError::DuplicateKey("a".to_string()))
    );
}

#[test]
fn parser_2_mixed_key_pair() {
    assert_eq!(
        parse_text("obj{a: 1 b}"),
        Err(ParseError::MixedKeyPair("b".to_string()))
    );
}

#[test]
fn parser_2_object_literal() {
    let mut obj = Object::new();
    obj.add(
        "add:",
        vec![Binding::Identifier("x".to_string())],
        vec![Stmt::Expr(send(
            Expr::Identifier("x".to_string()),
            "+:",
            vec![Expr::Integer(1)],
        ))],
    );
    assert_eq!(
        parse_text("[on {add: x} x + 1]"),
        Ok(vec![Stmt::Expr(Expr::Object(obj))])
    );
}

#[test]
fn parser_2_var_and_do_params_and_args() {
    let mut handler_obj = Object::new();
    handler_obj.add(
        "a:b:",
        vec![
            Binding::VarIdentifier("x".to_string()),
            Binding::DoIdentifier("f".to_string()),
        ],
        vec![],
    );
    let mut do_obj = Object::new();
    do_obj.add("go", vec![], vec![Stmt::Expr(Expr::Integer(1))]);
    assert_eq!(
        parse_text("[on {a: var x b: do f}] obj{a: var y b: on {go} 1}"),
        Ok(vec![
            Stmt::Expr(Expr::Object(handler_obj)),
            Stmt::Expr(send(
                Expr::Identifier("obj".to_string()),
                "a:b:",
                vec![Expr::VarArg("y".to_string()), Expr::DoArg(do_obj)]
            )),
        ])
    );
}

#[test]
fn parser_2_frame() {
    assert_eq!(
        parse_text("[y: 2 x: 1]"),
        Ok(vec![Stmt::Expr(Expr::Frame(
            "x:y:".to_string(),
            vec![
                ("x".to_string(), Expr::Integer(1)),
                ("y".to_string(), Expr::Integer(2))
            ]
        ))])
    );
}

#[test]
fn parser_2_statements() {
    assert_eq!(
        parse_text("var x := 1 set x := 2 x"),
        Ok(vec![
            Stmt::Var(Binding::Identifier("x".to_string()), Expr::Integer(1)),
            Stmt::Assign(Binding::Identifier("x".to_string()), Expr::Integer(2)),
            Stmt::Expr(Expr::Identifier("x".to_string())),
        ])
    );
}

#[test]
fn parser_2_expected_param() {
    assert_eq!(
        parse_text("[on {a: 1}]"),
        Err(ParseError::Expected("param".to_string()))
    );
}

#[test]
fn parser_2_expected_close_brace() {
    assert_eq!(
        parse_text("obj{a: 1"),
        Err(ParseError::ExpectedToken(Token::CloseBrace))
    );
}

#[test]
fn parser_2_program_runs() {
    let stmts = parse_text(
        "let adder := [on {add: x} x + 10]\nvar total := 5\nset total := adder{add: total}\ntotal",
    )
    .unwrap();
    let code = Compiler::program(stmts).unwrap();
    assert_eq!(Interpreter::program(code), Ok(Value::Integer(15)));
}

#[test]
fn parser_2_keyed_parts_in_any_order() {
    assert_eq!(parse_text("obj{a: 1 b: 2}"), parse_text("obj{b: 2 a: 1}"));
}

#[test]
fn pipeline_empty_program() {
    let stmts = parse_text("").unwrap();
    let code = Compiler::program(stmts).unwrap();
    assert_eq!(Interpreter::program(code), Ok(Value::Unit));
}

#[test]
fn pipeline_do_block_closure() {
    let stmts = parse_text(
        "var count := 0\nlet loop := [on {twice: do f} f{go} f{go}]\nloop{twice: on {go} set count := count + 1}\ncount",
    )
    .unwrap();
    let code = Compiler::program(stmts).unwrap();
    assert_eq!(Interpreter::program(code), Ok(Value::Integer(2)));
}
