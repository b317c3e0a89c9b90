use goblin::compiler::{BindingRecord, CompileError, Compiler, IVals};

#[test]
fn compiler_scope_slots_in_order() {
    let mut c = Compiler::new();
    c.add_let("a".to_string());
    let anon = c.add_anon();
    c.add_var_param("v".to_string());
    c.add_do_param("d".to_string());
    assert_eq!(anon, 1);
    assert_eq!(c.get(&"a".to_string()), Ok(BindingRecord::Local(0)));
    assert_eq!(c.get(&"v".to_string()), Ok(BindingRecord::Var(2)));
    assert_eq!(c.get(&"d".to_string()), Ok(BindingRecord::Do(3)));
}

#[test]
fn compiler_scope_unknown_identifier() {
    let mut c = Compiler::new();
    assert_eq!(
        c.get(&"nope".to_string()),
        Err(CompileError::UnknownIdentifier("nope".to_string()))
    );
}

#[test]
fn compiler_scope_capture_in_handler() {
    let mut c = Compiler::new();
    c.add_let("outer".to_string());
    c.handler(IVals::new());
    c.add_let("inner".to_string());
    assert_eq!(c.get(&"inner".to_string()), Ok(BindingRecord::Local(0)));
    let first = c.get(&"outer".to_string());
    assert_eq!(first, Ok(BindingRecord::IVal(0)));
    // resolving again finds the same capture and adds none
    assert_eq!(c.get(&"outer".to_string()), first);
    let ivals = c.end_handler();
    assert_eq!(ivals.count(), 1);
}

#[test]
fn compiler_scope_var_not_capturable_by_handler() {
    let mut c = Compiler::new();
    c.add_var_param("state".to_string());
    c.handler(IVals::new());
    assert_eq!(
        c.get(&"state".to_string()),
        Err(CompileError::InvalidVarReference("state".to_string()))
    );
}

#[test]
fn compiler_scope_do_handler_captures_var() {
    let mut c = Compiler::new();
    c.add_var_param("state".to_string());
    c.do_handler(IVals::new());
    assert_eq!(c.get(&"state".to_string()), Ok(BindingRecord::VarIVal(0)));
    assert_eq!(c.end_handler().count(), 1);
}

#[test]
fn compiler_scope_exports() {
    let mut c = Compiler::new();
    assert_eq!(c.add_let_export("foo".to_string()), Ok(()));
    assert_eq!(
        c.add_let_export("foo".to_string()),
        Err(CompileError::DuplicateExport("foo".to_string()))
    );
    // the second binding still takes a slot
    assert_eq!(c.get(&"foo".to_string()), Ok(BindingRecord::Local(1)));
}

#[test]
fn compiler_scope_export_from_handler_is_invalid() {
    let mut c = Compiler::new();
    c.handler(IVals::new());
    assert_eq!(
        c.add_let_export("foo".to_string()),
        Err(CompileError::InvalidExport("foo".to_string()))
    );
    assert_eq!(c.get(&"foo".to_string()), Ok(BindingRecord::Local(0)));
}

#[test]
fn compiler_ivals_new_is_empty() {
    assert_eq!(IVals::new().count(), 0);
}

use goblin::ast::frame_class;
use goblin::ir::{Class, NativeOp, Param, IR};

fn compiled(r: Result<goblin::compiler::IRBuilder, CompileError>) -> Vec<IR> {
    match r {
        Ok(b) => b.to_vec(),
        Err(e) => panic!("unexpected error {:?}", e),
    }
}

#[test]
fn compiler_identifier_code() {
    let mut c = Compiler::new();
    c.add_let("foo".to_string());
    c.add_var_param("bar".to_string());
    c.add_do_param("baz".to_string());
    assert_eq!(compiled(c.identifier("foo".to_string())), vec![IR::Local(0)]);
    assert_eq!(compiled(c.identifier("bar".to_string())), vec![IR::Local(1), IR::Deref]);
    assert_eq!(compiled(c.set("bar".to_string())), vec![IR::Local(1), IR::SetVar]);
    assert_eq!(compiled(c.var_arg("bar".to_string())), vec![IR::Local(1)]);
    assert_eq!(compiled(c.arg_identifier("baz".to_string())), vec![IR::Local(2)]);
    assert_eq!(compiled(c.target_identifier("baz".to_string())), vec![IR::Local(2)]);
}

#[test]
fn compiler_identifier_errors() {
    let mut c = Compiler::new();
    c.add_let("foo".to_string());
    c.add_do_param("baz".to_string());
    assert!(matches!(c.set("foo".to_string()), Err(CompileError::InvalidSet(k)) if k == "foo"));
    assert!(matches!(c.var_arg("foo".to_string()), Err(CompileError::InvalidVarArg(k)) if k == "foo"));
    assert!(matches!(c.identifier("baz".to_string()), Err(CompileError::InvalidDoReference(k)) if k == "baz"));
    assert!(matches!(c.identifier("qux".to_string()), Err(CompileError::UnknownIdentifier(k)) if k == "qux"));
}

#[test]
fn compiler_ivals_compile_pushes_captures() {
    let mut c = Compiler::new();
    c.add_let("foo".to_string());
    c.handler(IVals::new());
    assert!(c.get(&"foo".to_string()).is_ok());
    let ivals = c.end_handler();
    assert_eq!(ivals.count(), 1);
    assert_eq!(compiled(ivals.compile()), vec![IR::Local(0)]);
}

#[test]
fn frame_class_of_pairs() {
    let pairs: Vec<(String, i64)> = vec![("x".to_string(), 1), ("y".to_string(), 2)];
    let c = frame_class("x:y:".to_string(), &pairs);
    let mut expected = Class::new();
    expected.add(":", vec![Param::Do], vec![IR::IVal(0), IR::IVal(1), IR::Local(0), IR::Send("x:y:".to_string(), 2)]);
    expected.add_native("=:", vec![Param::Value], NativeOp::Equal);
    expected.add_native("!=:", vec![Param::Value], NativeOp::NotEqual);
    expected.add("x", vec![], vec![IR::IVal(0)]);
    expected.add("x:", vec![Param::Value], vec![IR::Local(0), IR::IVal(1), IR::NewSelf(2)]);
    expected.add(
        "-> x:",
        vec![Param::Do],
        vec![IR::IVal(0), IR::Local(0), IR::Send(":".to_string(), 1), IR::SelfRef, IR::Send("x:".to_string(), 1)],
    );
    expected.add("y", vec![], vec![IR::IVal(1)]);
    expected.add("y:", vec![Param::Value], vec![IR::IVal(0), IR::Local(0), IR::NewSelf(2)]);
    expected.add(
        "-> y:",
        vec![Param::Do],
        vec![IR::IVal(1), IR::Local(0), IR::Send(":".to_string(), 1), IR::SelfRef, IR::Send("y:".to_string(), 1)],
    );
    assert_eq!(*c, expected);
}

#[test]
fn frame_class_of_key() {
    let pairs: Vec<(String, i64)> = vec![];
    let c = frame_class("none".to_string(), &pairs);
    let mut expected = Class::new();
    expected.add(":", vec![Param::Do], vec![IR::Local(0), IR::Send("none".to_string(), 0)]);
    expected.add_native("=:", vec![Param::Value], NativeOp::Equal);
    expected.add_native("!=:", vec![Param::Value], NativeOp::NotEqual);
    expected.add(":into:", vec![Param::Value, Param::Value], vec![IR::Send("none:".to_string(), 1)]);
    assert_eq!(*c, expected);
    assert!(c.get(&"=:".to_string()).is_some());
    assert!(c.get(&"x".to_string()).is_none());
}

#[test]
fn compiler_add_var_takes_two_slots() {
    let mut c = Compiler::new();
    assert_eq!(compiled(c.add_var("x".to_string())), vec![IR::Var(0)]);
    assert_eq!(compiled(c.identifier("x".to_string())), vec![IR::Local(1), IR::Deref]);
    assert_eq!(c.add_anon(), 2);
}

#[test]
fn compiler_do_arg_var_closure() {
    let mut c = Compiler::new();
    assert!(c.add_var("x".to_string()).is_ok());
    c.do_handler(IVals::new());
    assert_eq!(compiled(c.set("x".to_string())), vec![IR::IVal(0), IR::SetVar]);
    assert_eq!(c.end_handler().count(), 1);
    c.handler(IVals::new());
    assert!(matches!(c.set("x".to_string()), Err(CompileError::InvalidVarReference(k)) if k == "x"));
}

#[test]
fn compiler_ir_constructors_and_check_arg() {
    assert_eq!(IR::integer(3), IR::Constant(goblin::ir::Value::Integer(3)));
    assert_eq!(IR::send("+:", 1), IR::Send("+:".to_string(), 1));
    let cls = Class::new().rc();
    assert!(matches!(IR::object(cls.clone(), 0), IR::Constant(goblin::ir::Value::Object(_, _))));
    assert!(matches!(IR::object(cls, 2), IR::Object(_, 2)));
    assert_eq!(Param::Var.check_arg(&goblin::ir::Value::Integer(1)), Err(goblin::ir::RuntimeError::ExpectedVarArg));
    assert_eq!(Param::Var.check_arg(&goblin::ir::Value::Pointer(3)), Ok(()));
    assert_eq!(Param::Value.check_arg(&goblin::ir::Value::Unit), Ok(()));
}
