use goblin::compiler_2::{Binding, CompileError, Compiler, Expr, Object, Stmt};
use goblin::runtime_2::{Class, Param, IR};
fn assert_ok(code: Vec<Stmt>, expected: Vec<IR>) {
    assert_eq!(Compiler::program(code), Ok(expected))
}

fn assert_err(code: Vec<Stmt>, expected: CompileError) {
    assert_eq!(Compiler::program(code), Err(expected))
}

fn integer(val: i64) -> Expr {
    Expr::Integer(val)
}
fn b_ident(name: &str) -> Binding {
    Binding::Identifier(name.to_string())
}
fn b_var(name: &str) -> Binding {
    Binding::VarIdentifier(name.to_string())
}
fn b_do(name: &str) -> Binding {
    Binding::DoIdentifier(name.to_string())
}
fn ident(name: &str) -> Expr {
    Expr::Identifier(name.to_string())
}
fn var_arg(name: &str) -> Expr {
    Expr::VarArg(name.to_string())
}

fn send(target: Expr, selector: &str, args: Vec<Expr>) -> Expr {
    Expr::Send(selector.to_string(), Box::new(target), args)
}

#[test]
fn compiler_2_empty() {
    assert_ok(vec![], vec![IR::Unit]);
}

#[test]
fn compiler_2_integer() {
    assert_ok(vec![Stmt::Expr(integer(123))], vec![IR::Integer(123)])
}

#[test]
fn compiler_2_identifier() {
    assert_ok(
        vec![
            Stmt::Let(b_ident("foo"), integer(123)),
            Stmt::Let(b_ident("bar"), integer(456)),
            Stmt::Expr(ident("foo")),
        ],
        vec![IR::Integer(123), IR::Integer(456), IR::Local(0)],
    )
}

#[test]
fn compiler_2_unknown_identifier() {
    assert_err(
        vec![Stmt::Expr(ident("foo"))],
        CompileError::UnknownIdentifier("foo".to_string()),
    )
}

#[test]
fn compiler_2_send_values() {
    assert_ok(
        vec![Stmt::Expr(send(integer(123), "+:", vec![integer(456)]))],
        vec![
            IR::Integer(456),
            IR::Integer(123),
            IR::Send("+:".to_string()),
        ],
    );
}

#[test]
fn compiler_2_vars() {
    assert_ok(
        vec![
            Stmt::Let(b_ident("foo"), integer(456)),
            Stmt::Var(b_ident("bar"), integer(123)),
            Stmt::Assign(b_ident("bar"), integer(789)),
            Stmt::Expr(ident("bar")),
        ],
        vec![
            IR::Integer(456),
            IR::Integer(123),
            IR::Var(1),
            IR::Integer(789),
            IR::Local(2),
            IR::SetVar,
            IR::Local(2),
            IR::Deref,
        ],
    )
}

#[test]
fn compiler_2_unknown_var() {
    assert_err(
        vec![Stmt::Assign(b_ident("bar"), integer(789))],
        CompileError::UnknownIdentifier("bar".to_string()),
    )
}

#[test]
fn compiler_2_invalid_set() {
    assert_err(
        vec![
            Stmt::Let(b_ident("foo"), integer(456)),
            Stmt::Assign(b_ident("foo"), integer(789)),
        ],
        CompileError::InvalidSet("foo".to_string()),
    )
}

#[test]
fn compiler_2_empty_object() {
    assert_ok(
        vec![Stmt::Expr(Expr::Object(Object::new()))],
        vec![IR::Object(Class::new().rc())],
    )
}

#[test]
fn compiler_2_object_with_simple_handler() {
    assert_ok(
        vec![
            Stmt::Let(b_ident("foo"), integer(123)),
            Stmt::Let(b_ident("bar"), integer(456)),
            Stmt::Expr(Expr::Object({
                let mut obj = Object::new();
                obj.add(
                    "handler",
                    vec![],
                    vec![
                        Stmt::Let(b_ident("bar"), integer(789)),
                        Stmt::Expr(ident("bar")),
                    ],
                );
                obj
            })),
        ],
        vec![
            IR::Integer(123),
            IR::Integer(456),
            IR::Object({
                let mut class = Class::new();
                class.add("handler", vec![], vec![IR::Integer(789), IR::Local(0)]);

                class.rc()
            }),
        ],
    )
}

#[test]
fn compiler_2_object_with_args() {
    assert_ok(
        vec![
            Stmt::Let(b_ident("foo"), integer(123)),
            Stmt::Let(b_ident("bar"), integer(456)),
            Stmt::Expr(Expr::Object({
                let mut obj = Object::new();
                obj.add(
                    "handler:",
                    vec![b_ident("foo")],
                    vec![
                        Stmt::Let(b_ident("bar"), integer(789)),
                        Stmt::Expr(send(ident("foo"), "+:", vec![ident("bar")])),
                    ],
                );
                obj
            })),
        ],
        vec![
            IR::Integer(123),
            IR::Integer(456),
            IR::Object({
                let mut class = Class::new();
                class.add(
                    "handler:",
                    vec![Param::Value],
                    vec![
                        IR::Integer(789),
                        IR::Local(1),
                        IR::Local(0),
                        IR::Send("+:".to_string()),
                    ],
                );

                class.rc()
            }),
        ],
    )
}

#[test]
fn compiler_2_instance_values() {
    assert_ok(
        vec![
            Stmt::Let(b_ident("foo"), integer(123)),
            Stmt::Expr(Expr::Object({
                let mut obj = Object::new();
                obj.add(
                    "handler:",
                    vec![b_ident("bar")],
                    vec![Stmt::Expr(send(ident("foo"), "+:", vec![ident("bar")]))],
                );
                obj
            })),
        ],
        vec![
            IR::Integer(123),
            IR::Local(0),
            IR::Object({
                let mut class = Class::new();
                class.add(
                    "handler:",
                    vec![Param::Value],
                    vec![IR::Local(0), IR::IVal(0), IR::Send("+:".to_string())],
                );
                class.set_ivals(1);

                class.rc()
            }),
        ],
    )
}

#[test]
fn compiler_2_instance_values_var_error() {
    assert_err(
        vec![
            Stmt::Var(b_ident("foo"), integer(123)),
            Stmt::Expr(Expr::Object({
                let mut obj = Object::new();
                obj.add(
                    "handler:",
                    vec![b_ident("bar")],
                    vec![Stmt::Expr(send(ident("foo"), "+:", vec![ident("bar")]))],
                );
                obj
            })),
        ],
        CompileError::InvalidVarReference("foo".to_string()),
    )
}

#[test]
fn compiler_2_instance_values_shared() {
    assert_ok(
        vec![
            Stmt::Let(b_ident("foo"), integer(123)),
            Stmt::Expr(Expr::Object({
                let mut obj = Object::new();
                obj.add(
                    "handler:",
                    vec![b_ident("bar")],
                    vec![Stmt::Expr(send(ident("foo"), "+:", vec![ident("bar")]))],
                );
                obj.add("other", vec![], vec![Stmt::Expr(ident("foo"))]);
                obj
            })),
        ],
        vec![
            IR::Integer(123),
            IR::Local(0),
            IR::Object({
                let mut class = Class::new();
                class.add(
                    "handler:",
                    vec![Param::Value],
                    vec![IR::Local(0), IR::IVal(0), IR::Send("+:".to_string())],
                );
                class.add("other", vec![], vec![IR::IVal(0)]);
                class.set_ivals(1);

                class.rc()
            }),
        ],
    )
}

#[test]
fn compiler_2_var_args() {
    assert_ok(
        vec![
            Stmt::Let(
                b_ident("obj"),
                Expr::Object({
                    let mut obj = Object::new();
                    obj.add(
                        "handler:",
                        vec![b_var("arg")],
                        vec![Stmt::Assign(b_ident("arg"), integer(10))],
                    );
                    obj
                }),
            ),
            Stmt::Var(b_ident("foo"), integer(5)),
            Stmt::Expr(send(ident("obj"), "handler:", vec![var_arg("foo")])),
            Stmt::Expr(ident("foo")),
        ],
        vec![
            IR::Object({
                let mut class = Class::new();
                class.add(
                    "handler:",
                    vec![Param::Var],
                    vec![IR::Integer(10), IR::Local(0), IR::SetVar, IR::Unit],
                );
                class.rc()
            }),
            IR::Integer(5),
            IR::Var(1),
            IR::Local(2),
            IR::Local(0),
            IR::Send("handler:".to_string()),
            IR::Drop,
            IR::Local(2),
            IR::Deref,
        ],
    )
}

#[test]
fn compiler_2_invalid_var_arg() {
    assert_err(
        vec![
            Stmt::Let(
                b_ident("obj"),
                Expr::Object({
                    let mut obj = Object::new();
                    obj.add(
                        "handler:",
                        vec![b_var("arg")],
                        vec![Stmt::Assign(b_ident("arg"), integer(10)), Stmt::Expr(ident("arg"))],
                    );
                    obj
                }),
            ),
            Stmt::Let(b_ident("foo"), integer(5)),
            Stmt::Expr(send(ident("obj"), "handler:", vec![var_arg("foo")])),
            Stmt::Expr(ident("foo")),
        ],
        CompileError::InvalidVarArg("foo".to_string()),
    );
}

#[test]
fn compiler_2_do_arg() {
    assert_ok(
        vec![Stmt::Expr(send(
            Expr::Object({
                let mut obj = Object::new();
                obj.add(
                    ":",
                    vec![b_do("f")],
                    vec![Stmt::Expr(send(ident("f"), "foo", vec![]))],
                );
                obj
            }),
            ":",
            vec![Expr::DoArg({
                let mut obj = Object::new();
                obj.add("foo", vec![], vec![Stmt::Expr(integer(123))]);

                obj
            })],
        ))],
        vec![
            IR::DoObject({
                let mut class = Class::new();
                class.add("foo", vec![], vec![IR::Integer(123)]);

                class.rc()
            }),
            IR::Object({
                let mut class = Class::new();
                class.add(
                    ":",
                    vec![Param::Do],
                    vec![IR::Local(0), IR::Send("foo".to_string())],
                );

                class.rc()
            }),
            IR::Send(":".to_string()),
        ],
    )
}

#[test]
fn compiler_2_do_arg_var_closure() {
    assert_ok(
        vec![
            Stmt::Var(b_ident("state"), integer(123)),
            Stmt::Expr(send(
                Expr::Object({
                    let mut obj = Object::new();
                    obj.add(
                        ":",
                        vec![b_do("f")],
                        vec![Stmt::Expr(send(ident("f"), "foo", vec![]))],
                    );
                    obj
                }),
                ":",
                vec![Expr::DoArg({
                    let mut obj = Object::new();
                    obj.add("foo", vec![], vec![Stmt::Assign(b_ident("state"), integer(456))]);
                    obj
                })],
            )),
        ],
        vec![
            IR::Integer(123),
            IR::Var(0),
            IR::Local(1),
            IR::DoObject({
                let mut class = Class::new();
                class.add(
                    "foo",
                    vec![],
                    vec![IR::Integer(456), IR::IVal(0), IR::SetVar, IR::Unit],
                );
                class.set_ivals(1);

                class.rc()
            }),
            IR::Object({
                let mut class = Class::new();
                class.add(
                    ":",
                    vec![Param::Do],
                    vec![IR::Local(0), IR::Send("foo".to_string())],
                );

                class.rc()
            }),
            IR::Send(":".to_string()),
        ],
    )
}

#[test]
fn compiler_2_invalid_do_arg_reference() {
    assert_err(
        vec![Stmt::Expr(send(
            Expr::Object({
                let mut object = Object::new();
                object.add(
                    ":",
                    vec![b_do("f")],
                    vec![Stmt::Let(b_ident("g"), ident("f"))],
                );
                object
            }),
            ":",
            vec![Expr::DoArg(Object::new())],
        ))],
        CompileError::InvalidDoReference("f".to_string()),
    )
}

#[test]
fn compiler_2_do_arg_closure() {
    assert_ok(
        vec![Stmt::Expr(Expr::Object({
            let mut obj = Object::new();
            obj.add(
                ":",
                vec![b_do("f")],
                vec![Stmt::Expr(send(
                    Expr::Object(Object::new()),
                    ":",
                    vec![Expr::DoArg({
                        let mut obj = Object::new();
                        obj.add(
                            "foo",
                            vec![],
                            vec![Stmt::Expr(send(ident("f"), "foo", vec![]))],
                        );
                        obj
                    })],
                ))],
            );
            obj
        }))],
        vec![IR::Object({
            let mut class = Class::new();
            class.add(
                ":",
                vec![Param::Do],
                vec![
                    IR::Local(0),
                    IR::DoObject({
                        let mut class = Class::new();
                        class.add(
                            "foo",
                            vec![],
                            vec![IR::IVal(0), IR::Send("foo".to_string())],
                        );
                        class.set_ivals(1);
                        class.rc()
                    }),
                    IR::Object(Class::new().rc()),
                    IR::Send(":".to_string()),
                ],
            );
            class.rc()
        })],
    );
}
