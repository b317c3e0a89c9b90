use goblin::ir::{Class, NativeOp, Param, RuntimeError, Value, IR};
use goblin::native::{
    apply_at_wrap, apply_bool, apply_int, apply_str, build_bool_class, build_int_class, build_string_class,
};
use goblin::ir::MoreOp;
use std::rc::Rc;

fn integer_of(r: Result<Value, RuntimeError>) -> i64 {
    match r {
        Ok(Value::Integer(v)) => v,
        other => panic!("expected an integer, got {:?}", other),
    }
}

fn boolean(r: Result<Value, RuntimeError>) -> bool {
    match r {
        Ok(Value::Bool(v)) => v,
        other => panic!("expected a bool, got {:?}", other),
    }
}

#[test]
fn native_int_arithmetic() {
    assert_eq!(integer_of(apply_int(NativeOp::IntAdd, 1, &vec![Value::Integer(2)])), 3);
    assert_eq!(integer_of(apply_int(NativeOp::IntSub, 1, &vec![Value::Integer(2)])), -1);
    assert_eq!(integer_of(apply_int(NativeOp::IntMul, 6, &vec![Value::Integer(7)])), 42);
    assert_eq!(integer_of(apply_int(NativeOp::IntRem, -7, &vec![Value::Integer(3)])), 2);
    assert_eq!(integer_of(apply_int(NativeOp::IntRem, 7, &vec![Value::Integer(-3)])), 1);
    assert_eq!(integer_of(apply_int(NativeOp::IntShr, -8, &vec![Value::Integer(1)])), -4);
    assert_eq!(integer_of(apply_int(NativeOp::IntShl, 3, &vec![Value::Integer(2)])), 12);
    assert_eq!(integer_of(apply_int(NativeOp::IntNeg, 5, &vec![])), -5);
}

#[test]
fn native_int_to_string() {
    match apply_int(NativeOp::IntToString, -120, &vec![]) {
        Ok(Value::String(s)) => assert_eq!(*s, "-120"),
        other => panic!("expected a string, got {:?}", other),
    }
}

#[test]
fn native_int_comparisons() {
    assert!(boolean(apply_int(NativeOp::IntLt, 1, &vec![Value::Integer(2)])));
    assert!(!boolean(apply_int(NativeOp::IntGe, 1, &vec![Value::Integer(2)])));
    assert!(boolean(apply_int(NativeOp::IntEqual, 2, &vec![Value::Integer(2)])));
    // value comparison against a non-integer
    assert!(!boolean(apply_int(NativeOp::IntEqual, 2, &vec![Value::Bool(true)])));
    assert!(boolean(apply_int(NativeOp::IntNotEqual, 2, &vec![Value::Unit])));
}

#[test]
fn native_int_expects_number() {
    assert_eq!(
        apply_int(NativeOp::IntAdd, 1, &vec![Value::Bool(true)]),
        Err(RuntimeError::ExpectedType("number".to_string()))
    );
    assert_eq!(
        apply_int(NativeOp::IntLt, 1, &vec![Value::Unit]),
        Err(RuntimeError::ExpectedType("number".to_string()))
    );
}

#[test]
fn native_int_class_handlers() {
    let c = build_int_class();
    let plus = c.get(&"+:".to_string()).unwrap();
    assert_eq!(plus.params, vec![Param::Value]);
    assert_eq!(*plus.body, vec![IR::SelfRef, IR::SendNative(NativeOp::IntAdd, 1)]);
    let neg = c.get(&"-".to_string()).unwrap();
    assert_eq!(*neg.body, vec![IR::SelfRef, IR::SendNative(NativeOp::IntNeg, 0)]);
    let max_min = c.get(&"max:min:".to_string()).unwrap();
    assert_eq!(
        *max_min.body,
        vec![IR::Local(0), IR::SelfRef, IR::Send("min:".to_string(), 1), IR::Local(1), IR::Send("max:".to_string(), 1)]
    );
    assert!(c.get(&"/:".to_string()).is_none());
    let _unused: Option<Class> = None;
}

fn string_of(r: Result<Value, RuntimeError>) -> String {
    match r {
        Ok(Value::String(s)) => (*s).clone(),
        other => panic!("expected a string, got {:?}", other),
    }
}

#[test]
fn native_string_ops() {
    let s = "héllo".to_string();
    // length counts bytes
    assert_eq!(integer_of(apply_str(NativeOp::StrLength, &s, &vec![])), 6);
    let w = Value::String(Rc::new(" world".to_string()));
    assert_eq!(string_of(apply_str(NativeOp::StrConcat, &s, &vec![w])), "héllo world");
    assert_eq!(
        apply_str(NativeOp::StrConcat, &s, &vec![Value::Integer(1)]),
        Err(RuntimeError::ExpectedType("string".to_string()))
    );
    let same = Value::String(Rc::new("héllo".to_string()));
    assert!(boolean(apply_str(NativeOp::StrEqual, &s, &vec![same])));
    assert!(boolean(apply_str(NativeOp::StrNotEqual, &s, &vec![Value::Integer(1)])));
    assert_eq!(integer_of(apply_str(NativeOp::StrCodeAt, &s, &vec![Value::Integer(0)])), 104);
    assert_eq!(string_of(apply_str(NativeOp::StrAt, &s, &vec![Value::Integer(1)])), "é");
}

#[test]
fn native_at_wrap() {
    assert_eq!(integer_of(apply_at_wrap(5, &vec![Value::Integer(-1)])), 4);
    assert_eq!(integer_of(apply_at_wrap(5, &vec![Value::Integer(2)])), 2);
    assert_eq!(
        apply_at_wrap(5, &vec![Value::Integer(-5)]),
        Err(RuntimeError::Panic("index out of range".to_string()))
    );
    assert_eq!(integer_of(apply_at_wrap(5, &vec![Value::Integer(-4)])), 1);
    assert_eq!(
        apply_at_wrap(5, &vec![Value::Integer(5)]),
        Err(RuntimeError::Panic("index out of range".to_string()))
    );
    assert_eq!(
        apply_at_wrap(0, &vec![Value::Integer(0)]),
        Err(RuntimeError::Panic("index out of range".to_string()))
    );
    assert_eq!(
        apply_at_wrap(5, &vec![Value::Unit]),
        Err(RuntimeError::ExpectedType("integer".to_string()))
    );
}

#[test]
fn native_string_class_handlers() {
    let c = build_string_class();
    let at = c.get(&"at:".to_string()).unwrap();
    assert_eq!(
        *at.body,
        vec![
            IR::Local(0),
            IR::SelfRef,
            IR::Send("length".to_string(), 0),
            IR::SendNative(NativeOp::AtWrap, 1),
            IR::SelfRef,
            IR::SendNative(NativeOp::StrAt, 1),
        ]
    );
    let ts = c.get(&"to String".to_string()).unwrap();
    assert_eq!(*ts.body, vec![IR::SelfRef]);
}

#[test]
fn native_bool_ops() {
    assert_eq!(integer_of(apply_bool(NativeOp::BoolPick, true, vec![Value::Integer(1), Value::Integer(2)])), 2);
    assert_eq!(integer_of(apply_bool(NativeOp::BoolPick, false, vec![Value::Integer(1), Value::Integer(2)])), 1);
    assert!(!boolean(apply_bool(NativeOp::BoolNot, true, vec![])));
    assert!(boolean(apply_bool(NativeOp::BoolXor, true, vec![Value::Bool(false)])));
    assert!(!boolean(apply_bool(NativeOp::BoolAnd, true, vec![Value::Bool(false)])));
    assert!(!boolean(apply_bool(NativeOp::BoolEqual, true, vec![Value::Integer(1)])));
    assert_eq!(
        apply_bool(NativeOp::BoolOr, true, vec![Value::Unit]),
        Err(RuntimeError::ExpectedType("bool".to_string()))
    );
}

#[test]
fn native_bool_class_match_handler() {
    let c = build_bool_class();
    let m = c.get(&":".to_string()).unwrap();
    assert_eq!(m.params, vec![Param::Do]);
    assert_eq!(*m.body, vec![IR::Local(0), IR::SelfRef, IR::Native(MoreOp::BoolMatch)]);
}
