use goblin::ast::{Binding, Expr, Object, Stmt};
use goblin::compiler::{CompileError, Compiler};
use goblin::ir::{Class, Param, IR};

fn assert_ok(code: Vec<Stmt>, expected: Vec<IR>) {
    assert_eq!(Compiler::program(code), Ok(expected))
}

fn assert_err(code: Vec<Stmt>, expected: CompileError) {
    assert_eq!(Compiler::program(code), Err(expected))
}

fn integer(val: i64) -> Expr {
    Expr::Integer(val)
}
fn b_ident(name: &str) -> Binding {
    Binding::Identifier(name.to_string())
}
fn ident(name: &str) -> Expr {
    Expr::Identifier(name.to_string())
}
fn send(target: Expr, selector: &str, args: Vec<Expr>) -> Expr {
    Expr::Send(selector.to_string(), Box::new(target), args)
}
fn let_(binding: Binding, value: Expr) -> Stmt {
    Stmt::Let(binding, value, false)
}

#[test]
fn module_compiler_empty() {
    assert_ok(vec![], vec![IR::unit()]);
}

#[test]
fn module_compiler_integer() {
    assert_ok(vec![Stmt::Expr(integer(123))], vec![IR::integer(123)])
}

#[test]
fn module_compiler_identifier() {
    assert_ok(
        vec![let_(b_ident("foo"), integer(123)), let_(b_ident("bar"), integer(456)), Stmt::Expr(ident("foo"))],
        vec![IR::integer(123), IR::integer(456), IR::Local(0)],
    )
}

#[test]
fn module_compiler_unknown_identifier() {
    assert_err(vec![Stmt::Expr(ident("foo"))], CompileError::UnknownIdentifier("foo".to_string()))
}

#[test]
fn module_compiler_send_values() {
    assert_ok(
        vec![Stmt::Expr(send(integer(123), "+:", vec![integer(456)]))],
        vec![IR::integer(456), IR::integer(123), IR::send("+:", 1)],
    );
}

#[test]
fn module_compiler_vars() {
    assert_ok(
        vec![
            let_(b_ident("foo"), integer(456)),
            Stmt::Var(b_ident("bar"), integer(123)),
            Stmt::Assign(b_ident("bar"), integer(789)),
            Stmt::Expr(ident("bar")),
        ],
        vec![
            IR::integer(456),
            IR::integer(123),
            IR::Var(1),
            IR::integer(789),
            IR::Local(2),
            IR::SetVar,
            IR::Local(2),
            IR::Deref,
        ],
    )
}

#[test]
fn module_compiler_unknown_var() {
    assert_err(vec![Stmt::Assign(b_ident("bar"), integer(789))], CompileError::UnknownIdentifier("bar".to_string()))
}

#[test]
fn module_compiler_invalid_set() {
    assert_err(
        vec![let_(b_ident("foo"), integer(456)), Stmt::Assign(b_ident("foo"), integer(789))],
        CompileError::InvalidSet("foo".to_string()),
    )
}

#[test]
fn module_compiler_empty_object() {
    assert_ok(vec![Stmt::Expr(Expr::Object(Object::new()))], vec![IR::object(Class::new().rc(), 0)])
}

#[test]
fn module_compiler_object_with_args() {
    let mut obj = Object::new();
    obj.add(
        "handler:",
        vec![b_ident("foo")],
        vec![let_(b_ident("bar"), integer(789)), Stmt::Expr(send(ident("foo"), "+:", vec![ident("bar")]))],
    );
    let mut class = Class::new();
    class.add(
        "handler:",
        vec![Param::Value],
        vec![IR::integer(789), IR::Local(1), IR::Local(0), IR::send("+:", 1)],
    );
    assert_ok(
        vec![let_(b_ident("foo"), integer(123)), let_(b_ident("bar"), integer(456)), Stmt::Expr(Expr::Object(obj))],
        vec![IR::integer(123), IR::integer(456), IR::object(class.rc(), 0)],
    )
}

#[test]
fn module_compiler_instance_values() {
    let mut obj = Object::new();
    obj.add("handler:", vec![b_ident("bar")], vec![Stmt::Expr(send(ident("foo"), "+:", vec![ident("bar")]))]);
    let mut class = Class::new();
    class.add("handler:", vec![Param::Value], vec![IR::Local(0), IR::IVal(0), IR::send("+:", 1)]);
    assert_ok(
        vec![let_(b_ident("foo"), integer(123)), Stmt::Expr(Expr::Object(obj))],
        vec![IR::integer(123), IR::Local(0), IR::Object(class.rc(), 1)],
    )
}

#[test]
fn module_compiler_instance_values_var_error() {
    let mut obj = Object::new();
    obj.add("handler:", vec![b_ident("bar")], vec![Stmt::Expr(send(ident("foo"), "+:", vec![ident("bar")]))]);
    assert_err(
        vec![Stmt::Var(b_ident("foo"), integer(123)), Stmt::Expr(Expr::Object(obj))],
        CompileError::InvalidVarReference("foo".to_string()),
    )
}

#[test]
fn module_compiler_do_arg_captures_var() {
    // a do-block captures a var as an instance value
    let mut obj = Object::new();
    obj.add("", vec![], vec![Stmt::Assign(b_ident("x"), integer(2))]);
    let code = vec![Stmt::Var(b_ident("x"), integer(1)), Stmt::Expr(send(integer(0), "do:", vec![Expr::DoArg(obj)]))];
    let mut class = Class::new();
    class.add("", vec![], vec![IR::integer(2), IR::IVal(0), IR::SetVar, IR::unit()]);
    assert_ok(
        code,
        vec![IR::integer(1), IR::Var(0), IR::Local(1), IR::DoObject(class.rc(), 1), IR::integer(0), IR::send("do:", 1)],
    )
}

#[test]
fn module_compiler_self_binding_and_destructure() {
    // an object bound by `let` binds itself in its handlers; a destructuring let sends
    // each key to the value
    let mut obj = Object::new();
    obj.add("me", vec![], vec![Stmt::Expr(ident("o"))]);
    let code = vec![
        let_(b_ident("o"), Expr::Object(obj)),
        let_(Binding::Destructure(vec![("x".to_string(), b_ident("a"))]), ident("o")),
        Stmt::Expr(ident("a")),
    ];
    let mut class = Class::new();
    class.add("me", vec![], vec![IR::SelfRef, IR::Local(0)]);
    assert_ok(
        code,
        vec![
            IR::object(class.rc(), 0),
            IR::Local(0),
            IR::Local(1),
            IR::send("x", 0),
            IR::Local(2),
        ],
    )
}

#[test]
fn module_compiler_if_and_paren() {
    let code = vec![Stmt::Expr(Expr::If(
        Box::new(Expr::Bool(true)),
        vec![Stmt::Expr(integer(1))],
        vec![Stmt::Expr(Expr::Paren(vec![Stmt::Expr(integer(2))]))],
    ))];
    let mut class = Class::new();
    class.add("false", vec![], vec![IR::integer(2)]);
    class.add("true", vec![], vec![IR::integer(1)]);
    assert_ok(code, vec![IR::DoObject(class.rc(), 0), IR::bool(true), IR::send(":", 1)])
}

#[test]
fn module_compiler_return_and_import() {
    let code = vec![
        Stmt::Import(b_ident("core"), "core".to_string(), false),
        Stmt::Return(ident("core")),
    ];
    // a final `return` is not an expression statement, so unit follows it
    assert_ok(code, vec![IR::Module("core".to_string()), IR::Local(0), IR::Return, IR::unit()])
}

#[test]
fn module_compiler_export_in_handler_is_invalid() {
    let mut obj = Object::new();
    obj.add("h", vec![], vec![Stmt::Let(b_ident("x"), integer(1), true)]);
    assert_err(vec![Stmt::Expr(Expr::Object(obj))], CompileError::InvalidExport("x".to_string()))
}

#[test]
fn module_compiler_module_exports() {
    let code = vec![Stmt::Let(b_ident("x"), integer(1), true), Stmt::Expr(integer(2))];
    let mut class = Class::new();
    class.add("x", vec![], vec![IR::IVal(0)]);
    assert_eq!(
        Compiler::module(code),
        Ok(vec![IR::integer(1), IR::integer(2), IR::Local(0), IR::Object(class.rc(), 1)])
    );
}

#[test]
fn module_compiler_duplicate_export() {
    let code = vec![Stmt::Let(b_ident("x"), integer(1), true), Stmt::Let(b_ident("x"), integer(2), true)];
    assert_eq!(Compiler::module(code), Err(CompileError::DuplicateExport("x".to_string())));
}
