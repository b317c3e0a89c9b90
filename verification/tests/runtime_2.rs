use goblin::runtime_2::{Class, Instance, Interpreter, Param, RuntimeError, Value, IR};
use std::rc::Rc;
fn assert_ok(code: Vec<IR>, expected: Value) {
    assert_eq!(Interpreter::program(code), Ok(expected));
}

fn assert_err(code: Vec<IR>, expected: RuntimeError) {
    assert_eq!(Interpreter::program(code), Err(expected));
}

fn add() -> IR {
    IR::Send("+:".to_string())
}

#[test]
fn runtime_2_addition() {
    assert_ok(
        vec![IR::Integer(1), IR::Integer(2), add()],
        Value::Integer(3),
    )
}

#[test]
fn runtime_2_does_not_understand() {
    assert_err(
        vec![IR::Integer(1), IR::Send("foobar".to_string())],
        RuntimeError::DoesNotUnderstand("foobar".to_string()),
    )
}

#[test]
fn runtime_2_locals() {
    assert_ok(
        vec![
            IR::Integer(123), // 0
            IR::Integer(456), // 1
            IR::Integer(789), // 2
            IR::Local(1),
            IR::Integer(10),
            add(),
        ],
        Value::Integer(466),
    )
}

#[test]
fn runtime_2_variables() {
    assert_ok(
        vec![
            IR::Integer(123), // 0
            IR::Integer(1),
            IR::Local(0),
            add(),
            IR::Var(0),
            IR::SetVar,
            IR::Local(0),
        ],
        Value::Integer(124),
    )
}

fn empty() -> Instance {
    Rc::new(vec![])
}

#[test]
fn runtime_2_objects() {
    let empty_class = Class::new().rc();
    assert_ok(
        vec![
            IR::Object(empty_class.clone()), // 0
            IR::Integer(1),                  // 1
            IR::Local(0),
        ],
        Value::Object(empty_class, empty()),
    )
}

#[test]
fn runtime_2_object_does_not_understand() {
    let empty_class = Class::new().rc();
    assert_err(
        vec![
            IR::Object(empty_class.clone()),
            IR::Send("foobar".to_string()),
        ],
        RuntimeError::DoesNotUnderstand("foobar".to_string()),
    )
}

#[test]
fn runtime_2_simple_handlers() {
    let record = {
        let mut class = Class::new();
        class.add("x", vec![], vec![IR::Integer(1)]);
        class.add("y", vec![], vec![IR::Integer(2)]);
        class.rc()
    };
    assert_ok(
        vec![
            IR::Object(record.clone()), // 0
            IR::Local(0),
            IR::Send("x".to_string()),
            IR::Local(0),
            IR::Send("y".to_string()),
            add(),
        ],
        Value::Integer(3),
    )
}

#[test]
fn runtime_2_handler_locals() {
    let foo = {
        let mut class = Class::new();
        class.add(
            "foo",
            vec![],
            vec![
                IR::Integer(123), // 0,
                IR::Integer(100), // 1,
                IR::Local(0),
                IR::Local(1),
                add(),
            ],
        );
        class.rc()
    };
    assert_ok(
        vec![
            IR::Integer(69),         // 0
            IR::Integer(420),        // 1
            IR::Object(foo.clone()), // 2
            IR::Local(2),
            IR::Send("foo".to_string()),
        ],
        Value::Integer(223),
    )
}

#[test]
fn runtime_2_handler_local_vars() {
    let foo = {
        let mut class = Class::new();
        class.add(
            "foo",
            vec![],
            vec![
                IR::Integer(123), // 0,
                IR::Integer(100), // 1,
                IR::Local(0),
                IR::Local(1),
                add(),
                IR::Var(0),
                IR::SetVar, // $0 = $1 + $0
                IR::Local(0),
                IR::Local(1),
                add(),
            ],
        );
        class.rc()
    };
    assert_ok(
        vec![
            IR::Integer(69),  // 0
            IR::Integer(420), // 1
            IR::Object(foo),  // 2
            IR::Local(2),
            IR::Send("foo".to_string()),
        ],
        Value::Integer(323),
    )
}

#[test]
fn runtime_2_handler_args() {
    let double_then_add_10 = {
        let mut class = Class::new();
        class.add(
            "foo:",
            vec![Param::Value],
            vec![
                IR::Local(0),
                IR::Local(0),
                add(), // let $1 = $0 + $0
                IR::Local(1),
                IR::Integer(10),
                add(), // return $1 + 10
            ],
        );

        class.rc()
    };
    assert_ok(
        vec![
            IR::Integer(50),                        // $0
            IR::Object(double_then_add_10.clone()), // $1
            IR::Local(0),
            IR::Local(1),
            IR::Send("foo:".to_string()), // $1{foo: $0}
        ],
        Value::Integer(110),
    )
}

#[test]
fn runtime_2_arg_cleanup() {
    let double_then_add_10 = {
        let mut class = Class::new();
        class.add(
            "foo:",
            vec![Param::Value],
            vec![
                IR::Local(0),
                IR::Local(0),
                add(), // let $1 = $0 + $0
                IR::Local(1),
                IR::Integer(10),
                add(), // return $1 + 10
            ],
        );

        class.rc()
    };

    assert_ok(
        vec![
            IR::Integer(50),                // $0
            IR::Object(double_then_add_10), // $1
            IR::Local(0),
            IR::Local(1),
            IR::Send("foo:".to_string()), // $2 = $1{foo: $0}
            IR::Local(2),
        ],
        Value::Integer(110),
    );
}

#[test]
fn runtime_2_var_args() {
    let add_10_to_var_arg = {
        let mut class = Class::new();
        class.add(
            "foo:",
            vec![Param::Var],
            vec![
                IR::Integer(10),
                IR::Local(0),
                IR::Deref,
                add(),
                IR::Local(0),
                IR::SetVar,     // $0 = *$0 + 10
                IR::Integer(0), // (ignore return value)
            ],
        );

        class.rc()
    };

    assert_ok(
        vec![
            IR::Object(add_10_to_var_arg), // $0
            IR::Integer(100),              // $1
            IR::Var(1),
            IR::Local(0),
            IR::Send("foo:".to_string()), // $0{foo: var $1}
            IR::Local(1),
        ],
        Value::Integer(110),
    )
}

#[test]
fn runtime_2_instance_values() {
    let pair = {
        let mut class = Class::new();
        class.add("x", vec![], vec![IR::IVal(0)]);
        class.add("y", vec![], vec![IR::IVal(1)]);
        class.set_ivals(2);
        class.rc()
    };

    assert_ok(
        vec![
            IR::Integer(1),
            IR::Integer(2),
            IR::Object(pair.clone()), // $0 = [x: 1 y: 2]
            IR::Integer(3),
            IR::Integer(4),
            IR::Object(pair), // $1 = [x: 3 y: 4]
            IR::Local(0),
            IR::Send("x".to_string()),
            IR::Local(1),
            IR::Send("y".to_string()),
            add(), // $0{x} + $1{y}
        ],
        Value::Integer(5),
    )
}

#[test]
fn runtime_2_set_instance_value_var() {
    assert_ok(
        vec![
            IR::Integer(100), // $0
            IR::Var(0),
            IR::Object({
                let mut class = Class::new();
                class.set_ivals(1);
                class.add(
                    "add to var:",
                    vec![Param::Value],
                    vec![
                        IR::IVal(0),
                        IR::Deref,
                        IR::Local(0),
                        add(),
                        IR::IVal(0),
                        IR::SetVar,
                        IR::Integer(0),
                    ],
                );
                class.rc()
            }), // $1
            IR::Integer(20),
            IR::Local(1),
            IR::Send("add to var:".to_string()),
            IR::Local(0),
        ],
        Value::Integer(120),
    )
}

#[test]
fn runtime_2_return_from_handler() {
    let obj = {
        let mut class = Class::new();
        class.add(
            "add 10:",
            vec![Param::Value],
            vec![
                IR::Integer(10),
                IR::Local(0),
                add(),
                IR::Return,
                // should be unreachable
                IR::Integer(20),
            ],
        );
        class.rc()
    };
    assert_ok(
        vec![
            IR::Integer(3),
            IR::Object(obj),
            IR::Send("add 10:".to_string()),
        ],
        Value::Integer(13),
    );
}

#[test]
fn runtime_2_return_from_root() {
    assert_ok(
        vec![
            IR::Integer(3),
            IR::Return,
            // should be unreachable
            IR::Integer(4),
        ],
        Value::Integer(3),
    );
}

#[test]
fn runtime_2_return_from_do_object() {
    /*
      [
        on {run}
          let obj := [
            on {match: do f}
              f{some: 50}
              456
          ]
          obj{match:
            on {some: value}
              return value + value
              123
          }
          789
      ]{run}
    */
    assert_ok(
        vec![
            IR::Object({
                let mut class = Class::new();
                class.add(
                    "run",
                    vec![],
                    vec![
                        IR::Object({
                            let mut class = Class::new();
                            class.add(
                                "match:",
                                vec![Param::Do],
                                vec![
                                    IR::Integer(50),
                                    IR::Local(0),
                                    IR::Send("some:".to_string()),
                                    // unreachable if do block returns early
                                    IR::Integer(456),
                                ],
                            );
                            class.rc()
                        }), // $0
                        IR::DoObject({
                            let mut class = Class::new();
                            class.add(
                                "some:",
                                vec![Param::Value],
                                vec![
                                    IR::Local(0),
                                    IR::Local(0),
                                    add(),
                                    IR::Return,
                                    // unreachable
                                    IR::Integer(123),
                                ],
                            );
                            class.rc()
                        }),
                        IR::Local(0),
                        IR::Send("match:".to_string()),
                        // unreachable if match do arg returns early
                        IR::Integer(789),
                    ],
                );
                class.rc()
            }),
            IR::Send("run".to_string()),
        ],
        Value::Integer(100),
    );
}

#[test]
fn runtime_2_class_later_handler_replaces_earlier() {
    let mut class = Class::new();
    class.add("x", vec![], vec![IR::Integer(1)]);
    class.add("y", vec![], vec![IR::Integer(2)]);
    class.add("x", vec![], vec![IR::Integer(3)]);
    assert_eq!(*class.get(&"x".to_string()).unwrap().body, vec![IR::Integer(3)]);
    assert_eq!(*class.get(&"y".to_string()).unwrap().body, vec![IR::Integer(2)]);
    assert_eq!(
        class.get(&"z".to_string()).err(),
        Some(RuntimeError::DoesNotUnderstand("z".to_string()))
    );
}
