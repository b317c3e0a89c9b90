use vstd::prelude::*;

use std::rc::Rc;

use crate::ast::{classv_fold, lemma_fold_push};
use crate::grammar::{int_text, int_to_string};
use crate::ir::{
    body_view, class_view, classv_empty, lemma_body_view, Class, HandlerV, MoreOp, NativeOp, Param,
    RuntimeError, Value, ValueV, IRV, IR, value_view,
};
use crate::text::{chars_of, push_str, string_eq, string_from_chars, string_from_str};
use vstd::utf8::encode_utf8;

verus! {

/// A handler that the machine carries out itself with `op`, taking `arity` values.
pub open spec fn native_entry(sel: Seq<char>, arity: nat, op: NativeOp) -> (Seq<char>, HandlerV) {
    (sel, HandlerV {
        params: Seq::new(arity, |i: int| Param::Value),
        body: seq![IRV::SelfRef, IRV::SendNative(op, arity as usize)],
    })
}

/// `min:` / `max:`: the argument and the target, chosen between by comparing with `cmp`.
pub open spec fn pick_body(cmp: Seq<char>) -> Seq<IRV> {
    seq![
        IRV::Local(0),
        IRV::SelfRef,
        IRV::Local(0),
        IRV::SelfRef,
        IRV::Send(cmp, 1),
        IRV::Send("false:true:"@, 2),
    ]
}

/// The handlers of the integer class, in the order they are added.
pub open spec fn int_class_handlers() -> Seq<(Seq<char>, HandlerV)> {
    seq![
        native_entry("+:"@, 1, NativeOp::IntAdd),
        native_entry("-:"@, 1, NativeOp::IntSub),
        native_entry("*:"@, 1, NativeOp::IntMul),
        native_entry("%:"@, 1, NativeOp::IntRem),
        native_entry(">>:"@, 1, NativeOp::IntShr),
        native_entry("<<:"@, 1, NativeOp::IntShl),
        native_entry("-"@, 0, NativeOp::IntNeg),
        native_entry("to String"@, 0, NativeOp::IntToString),
        native_entry("=:"@, 1, NativeOp::IntEqual),
        native_entry("!=:"@, 1, NativeOp::IntNotEqual),
        native_entry("<:"@, 1, NativeOp::IntLt),
        native_entry("<=:"@, 1, NativeOp::IntLe),
        native_entry("==:"@, 1, NativeOp::IntNumEq),
        native_entry("<>:"@, 1, NativeOp::IntNumNe),
        native_entry(">=:"@, 1, NativeOp::IntGe),
        native_entry(">:"@, 1, NativeOp::IntGt),
        ("min:"@, HandlerV { params: seq![Param::Value], body: pick_body("<:"@) }),
        ("max:"@, HandlerV { params: seq![Param::Value], body: pick_body(">:"@) }),
        ("max:min:"@, HandlerV {
            params: seq![Param::Value],
            body: seq![
                IRV::Local(0),
                IRV::SelfRef,
                IRV::Send("min:"@, 1),
                IRV::Local(1),
                IRV::Send("max:"@, 1),
            ],
        }),
    ]
}

/// Adds a native handler and records it in the ghost list of what was added.
fn add_native_step(
    class: &mut Class,
    added: Ghost<Seq<(Seq<char>, HandlerV)>>,
    sel: &str,
    arity: usize,
    op: NativeOp,
) -> (next: Ghost<Seq<(Seq<char>, HandlerV)>>)
    requires
        class_view(*old(class)) == classv_fold(classv_empty(), added@),
    ensures
        next@ == added@.push(native_entry(sel@, arity as nat, op)),
        class_view(*final(class)) == classv_fold(classv_empty(), next@),
{
    let mut params: Vec<Param> = Vec::new();
    let mut i: usize = 0;
    while i < arity
        invariant
            i <= arity,
            params@ == Seq::new(i as nat, |k: int| Param::Value),
        decreases arity - i,
    {
        params.push(Param::Value);
        proof {
            assert(params@ =~= Seq::new((i + 1) as nat, |k: int| Param::Value));
        }
        i = i + 1;
    }
    class.add_native(sel, params, op);
    proof {
        lemma_fold_push(classv_empty(), added@, native_entry(sel@, arity as nat, op));
    }
    Ghost(added@.push(native_entry(sel@, arity as nat, op)))
}

/// Adds a handler with code and records it in the ghost list of what was added.
fn add_code_step(
    class: &mut Class,
    added: Ghost<Seq<(Seq<char>, HandlerV)>>,
    sel: &str,
    params: Vec<Param>,
    body: Vec<IR>,
) -> (next: Ghost<Seq<(Seq<char>, HandlerV)>>)
    requires
        class_view(*old(class)) == classv_fold(classv_empty(), added@),
    ensures
        next@ == added@.push((sel@, HandlerV { params: params@, body: body_view(body@) })),
        class_view(*final(class)) == classv_fold(classv_empty(), next@),
{
    let ghost entry = (sel@, HandlerV { params: params@, body: body_view(body@) });
    class.add(sel, params, body);
    proof {
        lemma_fold_push(classv_empty(), added@, entry);
    }
    Ghost(added@.push(entry))
}

/// The code of `min:` or `max:`, comparing with `cmp`.
fn pick_code(cmp: &str) -> (b: Vec<IR>)
    ensures
        body_view(b@) == pick_body(cmp@),
{
    let b = vec![
        IR::Local(0),
        IR::SelfRef,
        IR::Local(0),
        IR::SelfRef,
        IR::Send(string_from_str(cmp), 1),
        IR::Send(string_from_str("false:true:"), 2),
    ];
    proof {
        lemma_body_view(b@);
        assert(body_view(b@) =~= pick_body(cmp@));
    }
    b
}

/// The class of integers: arithmetic, comparison and text carried out by the machine,
/// and `min:`, `max:`, `max:min:` written in code.
pub fn build_int_class() -> (c: Rc<Class>)
    ensures
        class_view(*c) == classv_fold(classv_empty(), int_class_handlers()),
{
    let mut class = Class::new();
    let g: Ghost<Seq<(Seq<char>, HandlerV)>> = Ghost(Seq::empty());
    proof {
        assert(class_view(class) == classv_fold(classv_empty(), g@));
    }
    let g = add_native_step(&mut class, g, "+:", 1, NativeOp::IntAdd);
    let g = add_native_step(&mut class, g, "-:", 1, NativeOp::IntSub);
    let g = add_native_step(&mut class, g, "*:", 1, NativeOp::IntMul);
    let g = add_native_step(&mut class, g, "%:", 1, NativeOp::IntRem);
    let g = add_native_step(&mut class, g, ">>:", 1, NativeOp::IntShr);
    let g = add_native_step(&mut class, g, "<<:", 1, NativeOp::IntShl);
    let g = add_native_step(&mut class, g, "-", 0, NativeOp::IntNeg);
    let g = add_native_step(&mut class, g, "to String", 0, NativeOp::IntToString);
    let g = add_native_step(&mut class, g, "=:", 1, NativeOp::IntEqual);
    let g = add_native_step(&mut class, g, "!=:", 1, NativeOp::IntNotEqual);
    let g = add_native_step(&mut class, g, "<:", 1, NativeOp::IntLt);
    let g = add_native_step(&mut class, g, "<=:", 1, NativeOp::IntLe);
    let g = add_native_step(&mut class, g, "==:", 1, NativeOp::IntNumEq);
    let g = add_native_step(&mut class, g, "<>:", 1, NativeOp::IntNumNe);
    let g = add_native_step(&mut class, g, ">=:", 1, NativeOp::IntGe);
    let g = add_native_step(&mut class, g, ">:", 1, NativeOp::IntGt);
    let p1 = vec![Param::Value];
    proof {
        assert(p1@ =~= seq![Param::Value]);
    }
    let g = add_code_step(&mut class, g, "min:", p1, pick_code("<:"));
    let p2 = vec![Param::Value];
    proof {
        assert(p2@ =~= seq![Param::Value]);
    }
    let g = add_code_step(&mut class, g, "max:", p2, pick_code(">:"));
    let p3 = vec![Param::Value];
    let b3 = vec![
        IR::Local(0),
        IR::SelfRef,
        IR::Send(string_from_str("min:"), 1),
        IR::Local(1),
        IR::Send(string_from_str("max:"), 1),
    ];
    proof {
        assert(p3@ =~= seq![Param::Value]);
        lemma_body_view(b3@);
        assert(body_view(b3@) =~= int_class_handlers()[18].1.body);
    }
    let g = add_code_step(&mut class, g, "max:min:", p3, b3);
    proof {
        assert(g@ =~= int_class_handlers());
    }
    class.rc()
}

/// What an integer operation gives for target `t` and arguments `args`; `None` where the
/// operation is not defined there (an overflow, a remainder by zero, a shift by less than
/// 0 or 64 or more), which the machine never carries out.
pub open spec fn spec_int_op(op: NativeOp, t: i64, args: Seq<ValueV>) -> Option<Result<ValueV, Seq<char>>> {
    match op {
        NativeOp::IntNeg => if t == i64::MIN { None } else { Some(Ok(ValueV::Integer((-t) as i64))) },
        NativeOp::IntToString => Some(Ok(ValueV::String(int_text(t as int)))),
        _ => match args[0] {
            ValueV::Integer(a) => match op {
                NativeOp::IntAdd => if i64::MIN <= t + a <= i64::MAX {
                    Some(Ok(ValueV::Integer((t + a) as i64)))
                } else {
                    None
                },
                NativeOp::IntSub => if i64::MIN <= t - a <= i64::MAX {
                    Some(Ok(ValueV::Integer((t - a) as i64)))
                } else {
                    None
                },
                NativeOp::IntMul => if i64::MIN <= t * a <= i64::MAX {
                    Some(Ok(ValueV::Integer((t * a) as i64)))
                } else {
                    None
                },
                NativeOp::IntRem => if a == 0 || (t == i64::MIN && a == -1) {
                    None
                } else {
                    Some(Ok(ValueV::Integer((t % a) as i64)))
                },
                NativeOp::IntShr => if 0 <= a < 64 {
                    Some(Ok(ValueV::Integer(t.wrapping_shr(a as u32))))
                } else {
                    None
                },
                NativeOp::IntShl => if 0 <= a < 64 {
                    Some(Ok(ValueV::Integer(t.wrapping_shl(a as u32))))
                } else {
                    None
                },
                NativeOp::IntEqual => Some(Ok(ValueV::Bool(t == a))),
                NativeOp::IntNotEqual => Some(Ok(ValueV::Bool(t != a))),
                NativeOp::IntLt => Some(Ok(ValueV::Bool(t < a))),
                NativeOp::IntLe => Some(Ok(ValueV::Bool(t <= a))),
                NativeOp::IntNumEq => Some(Ok(ValueV::Bool(t == a))),
                NativeOp::IntNumNe => Some(Ok(ValueV::Bool(t != a))),
                NativeOp::IntGe => Some(Ok(ValueV::Bool(t >= a))),
                NativeOp::IntGt => Some(Ok(ValueV::Bool(t > a))),
                _ => None,
            },
            _ => match op {
                NativeOp::IntEqual => Some(Ok(ValueV::Bool(false))),
                NativeOp::IntNotEqual => Some(Ok(ValueV::Bool(true))),
                NativeOp::IntAdd | NativeOp::IntSub | NativeOp::IntMul | NativeOp::IntRem
                | NativeOp::IntShr | NativeOp::IntShl | NativeOp::IntLt | NativeOp::IntLe
                | NativeOp::IntNumEq | NativeOp::IntNumNe | NativeOp::IntGe | NativeOp::IntGt => Some(
                    Err("number"@),
                ),
                _ => None,
            },
        },
    }
}

/// The number of arguments an integer operation takes.
pub open spec fn int_op_arity(op: NativeOp) -> nat {
    match op {
        NativeOp::IntNeg | NativeOp::IntToString => 0,
        _ => 1,
    }
}

/// Carries out an integer operation on target `t`: the result value, or
/// `ExpectedType("number")` where an arithmetic or numeric comparison gets a non-integer.
pub fn apply_int(op: NativeOp, t: i64, args: &Vec<Value>) -> (r: Result<Value, RuntimeError>)
    requires
        args@.len() == int_op_arity(op),
        spec_int_op(op, t, args@.map_values(|v: Value| value_view(v))) is Some,
    ensures
        match spec_int_op(op, t, args@.map_values(|v: Value| value_view(v))).unwrap() {
            Ok(v) => r matches Ok(x) && value_view(x) == v,
            Err(name) => r matches Err(RuntimeError::ExpectedType(n)) && n@ == name,
        },
{
    match op {
        NativeOp::IntNeg => return Ok(Value::Integer(-t)),
        NativeOp::IntToString => return Ok(Value::String(Rc::new(int_to_string(t)))),
        _ => {},
    }
    let ghost av = args@.map_values(|v: Value| value_view(v));
    assert(av[0] == value_view(args@[0]));
    let a = match &args[0] {
        Value::Integer(a) => *a,
        _ => {
            return match op {
                NativeOp::IntEqual => Ok(Value::Bool(false)),
                NativeOp::IntNotEqual => Ok(Value::Bool(true)),
                _ => Err(RuntimeError::ExpectedType(string_from_str("number"))),
            };
        },
    };
    let v = match op {
        NativeOp::IntAdd => Value::Integer(t + a),
        NativeOp::IntSub => Value::Integer(t - a),
        NativeOp::IntMul => Value::Integer(t * a),
        NativeOp::IntRem => match t.checked_rem_euclid(a) {
            Some(x) => Value::Integer(x),
            None => Value::Integer(0),
        },
        NativeOp::IntShr => Value::Integer(t.wrapping_shr(a as u32)),
        NativeOp::IntShl => Value::Integer(t.wrapping_shl(a as u32)),
        NativeOp::IntEqual => Value::Bool(t == a),
        NativeOp::IntNotEqual => Value::Bool(t != a),
        NativeOp::IntLt => Value::Bool(t < a),
        NativeOp::IntLe => Value::Bool(t <= a),
        NativeOp::IntNumEq => Value::Bool(t == a),
        NativeOp::IntNumNe => Value::Bool(t != a),
        NativeOp::IntGe => Value::Bool(t >= a),
        _ => Value::Bool(t > a),
    };
    Ok(v)
}

/// Whether the integer comparison `op` answers `true` for target `t` and argument `a`.
pub open spec fn int_test(op: NativeOp, t: i64, a: i64) -> bool {
    spec_int_op(op, t, seq![ValueV::Integer(a)]) matches Some(Ok(ValueV::Bool(b))) && b
}

/// The integer comparisons form one total order, the order of the integers: each answers
/// with a bool; `<=:` is reflexive and holds exactly where `<:` or `=:` does; `<:` is
/// irreflexive; any two integers are related one way or the other by `<=:`, and only equal
/// ones both ways; `>=:` and `>:` are `<=:` and `<:` with the operands swapped, `>=:` is
/// the negation of `<:`; `!=:` negates `=:`, `==:` and `~=:` agree with them, and `=:`
/// holds exactly of equal integers.
pub proof fn law_int_order(t: i64, a: i64)
    ensures
        spec_int_op(NativeOp::IntLt, t, seq![ValueV::Integer(a)]) matches Some(Ok(ValueV::Bool(_))),
        spec_int_op(NativeOp::IntLe, t, seq![ValueV::Integer(a)]) matches Some(Ok(ValueV::Bool(_))),
        spec_int_op(NativeOp::IntGe, t, seq![ValueV::Integer(a)]) matches Some(Ok(ValueV::Bool(_))),
        spec_int_op(NativeOp::IntGt, t, seq![ValueV::Integer(a)]) matches Some(Ok(ValueV::Bool(_))),
        spec_int_op(NativeOp::IntEqual, t, seq![ValueV::Integer(a)]) matches Some(Ok(ValueV::Bool(_))),
        spec_int_op(NativeOp::IntNotEqual, t, seq![ValueV::Integer(a)]) matches Some(Ok(ValueV::Bool(_))),
        spec_int_op(NativeOp::IntNumEq, t, seq![ValueV::Integer(a)]) matches Some(Ok(ValueV::Bool(_))),
        spec_int_op(NativeOp::IntNumNe, t, seq![ValueV::Integer(a)]) matches Some(Ok(ValueV::Bool(_))),
        int_test(NativeOp::IntLe, t, t),
        !int_test(NativeOp::IntLt, t, t),
        int_test(NativeOp::IntLe, t, a) == (int_test(NativeOp::IntLt, t, a) || int_test(NativeOp::IntEqual, t, a)),
        int_test(NativeOp::IntLe, t, a) || int_test(NativeOp::IntLe, a, t),
        int_test(NativeOp::IntLe, t, a) && int_test(NativeOp::IntLe, a, t) ==> t == a,
        int_test(NativeOp::IntGe, t, a) == int_test(NativeOp::IntLe, a, t),
        int_test(NativeOp::IntGt, t, a) == int_test(NativeOp::IntLt, a, t),
        int_test(NativeOp::IntGe, t, a) == !int_test(NativeOp::IntLt, t, a),
        int_test(NativeOp::IntNotEqual, t, a) == !int_test(NativeOp::IntEqual, t, a),
        int_test(NativeOp::IntNumEq, t, a) == int_test(NativeOp::IntEqual, t, a),
        int_test(NativeOp::IntNumNe, t, a) == int_test(NativeOp::IntNotEqual, t, a),
        int_test(NativeOp::IntEqual, t, a) == (t == a),
{
}

/// `<=:` and `<:` are transitive, and chain with each other into `<:`.
pub proof fn law_int_order_transitive(t: i64, a: i64, b: i64)
    ensures
        int_test(NativeOp::IntLe, t, a) && int_test(NativeOp::IntLe, a, b) ==> int_test(NativeOp::IntLe, t, b),
        int_test(NativeOp::IntLt, t, a) && int_test(NativeOp::IntLe, a, b) ==> int_test(NativeOp::IntLt, t, b),
        int_test(NativeOp::IntLe, t, a) && int_test(NativeOp::IntLt, a, b) ==> int_test(NativeOp::IntLt, t, b),
{
}

/// The order agrees with addition: adding `1` gives a larger integer, and adding a
/// non-negative integer never gives a smaller one.
pub proof fn law_int_order_follows_addition(t: i64, d: i64)
    ensures
        t < i64::MAX ==> (spec_int_op(NativeOp::IntAdd, t, seq![ValueV::Integer(1)]) matches Some(Ok(ValueV::Integer(s)))
            && int_test(NativeOp::IntLt, t, s) && !int_test(NativeOp::IntLe, s, t)),
        (spec_int_op(NativeOp::IntAdd, t, seq![ValueV::Integer(d)]) matches Some(Ok(ValueV::Integer(s)))
            && int_test(NativeOp::IntLe, 0, d)) ==> (spec_int_op(NativeOp::IntAdd, t, seq![ValueV::Integer(d)]) matches Some(Ok(ValueV::Integer(s))) && int_test(NativeOp::IntLe, t, s)),
{
}

/// Integer arithmetic obeys the laws of the integers wherever it is defined: `+:` and `*:`
/// are commutative, `-:` undoes `+:`, a number plus its negation is `0`, and the remainder
/// by a non-zero divisor `a` lies in `[0, |a|)` and differs from the target by a multiple
/// of `a` (Euclidean division).
pub proof fn law_int_arithmetic(t: i64, a: i64)
    ensures
        spec_int_op(NativeOp::IntAdd, t, seq![ValueV::Integer(a)]) == spec_int_op(NativeOp::IntAdd, a, seq![ValueV::Integer(t)]),
        spec_int_op(NativeOp::IntMul, t, seq![ValueV::Integer(a)]) == spec_int_op(NativeOp::IntMul, a, seq![ValueV::Integer(t)]),
        spec_int_op(NativeOp::IntAdd, t, seq![ValueV::Integer(a)]) matches Some(Ok(ValueV::Integer(s)))
            ==> spec_int_op(NativeOp::IntSub, s, seq![ValueV::Integer(a)]) == Some(Ok::<ValueV, Seq<char>>(ValueV::Integer(t))),
        spec_int_op(NativeOp::IntNeg, t, seq![]) matches Some(Ok(ValueV::Integer(n)))
            ==> spec_int_op(NativeOp::IntAdd, t, seq![ValueV::Integer(n)]) == Some(Ok::<ValueV, Seq<char>>(ValueV::Integer(0))),
        t != i64::MIN ==> spec_int_op(NativeOp::IntNeg, t, seq![]) is Some,
        a != 0 && !(t == i64::MIN && a == -1) ==> (spec_int_op(NativeOp::IntRem, t, seq![ValueV::Integer(a)]) matches Some(Ok(ValueV::Integer(r)))
            && 0 <= r && (r < a || r < -a) && t == (t as int / a as int) * a + r),
{
    if a != 0 && !(t == i64::MIN && a == -1) {
        let q = t as int / a as int;
        let r = t as int % a as int;
        assert(t == q * a + r && 0 <= r && (r < a || r < -a)) by (nonlinear_arith)
            requires
                a != 0,
                q == t as int / a as int,
                r == t as int % a as int,
        ;
        assert(i64::MIN <= r <= i64::MAX);
        assert(spec_int_op(NativeOp::IntRem, t, seq![ValueV::Integer(a)]) == Some(Ok::<ValueV, Seq<char>>(ValueV::Integer(r as i64))));
    }
    assert(t * a == a * t) by (nonlinear_arith);
}

/// Why a native operation stops the machine.
pub enum NativeFailure {
    /// `ExpectedType(name)`: an argument of the wrong kind.
    ExpectedType(Seq<char>),
    /// `Panic(message)`.
    Panic(Seq<char>),
}

/// An error agrees with a failure.
pub open spec fn failure_matches(e: RuntimeError, f: NativeFailure) -> bool {
    match f {
        NativeFailure::ExpectedType(n) => e matches RuntimeError::ExpectedType(m) && m@ == n,
        NativeFailure::Panic(n) => e matches RuntimeError::Panic(m) && m@ == n,
    }
}

/// A native result agrees with what the spec gives.
pub open spec fn native_matches(r: Result<Value, RuntimeError>, s: Result<ValueV, NativeFailure>) -> bool {
    match s {
        Ok(v) => r matches Ok(x) && value_view(x) == v,
        Err(f) => r matches Err(e) && failure_matches(e, f),
    }
}

/// What a string operation gives for target `t` and arguments `args`; `None` where the
/// machine would stop without an error (an index that is not an integer or past the
/// last character).
pub open spec fn spec_str_op(op: NativeOp, t: Seq<char>, args: Seq<ValueV>) -> Option<Result<ValueV, NativeFailure>> {
    match op {
        NativeOp::StrLength => Some(Ok(ValueV::Integer((encode_utf8(t).len() as usize) as i64))),
        NativeOp::StrConcat => match args[0] {
            ValueV::String(a) => Some(Ok(ValueV::String(t + a))),
            _ => Some(Err(NativeFailure::ExpectedType("string"@))),
        },
        NativeOp::StrEqual => match args[0] {
            ValueV::String(a) => Some(Ok(ValueV::Bool(t == a))),
            _ => Some(Ok(ValueV::Bool(false))),
        },
        NativeOp::StrNotEqual => match args[0] {
            ValueV::String(a) => Some(Ok(ValueV::Bool(t != a))),
            _ => Some(Ok(ValueV::Bool(true))),
        },
        NativeOp::StrCodeAt => match args[0] {
            ValueV::Integer(i) => if 0 <= i < t.len() {
                Some(Ok(ValueV::Integer((t[i as int] as u32) as i64)))
            } else {
                None
            },
            _ => None,
        },
        NativeOp::StrAt => match args[0] {
            ValueV::Integer(i) => if 0 <= i < t.len() {
                Some(Ok(ValueV::String(seq![t[i as int]])))
            } else {
                None
            },
            _ => None,
        },
        _ => None,
    }
}

/// What wrapping an index gives, sent to a length: the index counted from the front,
/// where `-length < at < length` (a negative index counts from the end); an out-of-range
/// panic otherwise.
pub open spec fn spec_at_wrap(length: i64, args: Seq<ValueV>) -> Option<Result<ValueV, NativeFailure>> {
    match args[0] {
        ValueV::Integer(at) => if length == i64::MIN {
            None
        } else if length == 0 || at <= -length || at >= length {
            Some(Err(NativeFailure::Panic("index out of range"@)))
        } else {
            Some(Ok(ValueV::Integer((at % length) as i64)))
        },
        _ => Some(Err(NativeFailure::ExpectedType("integer"@))),
    }
}

/// String concatenation `,:` puts the argument after the target: the result is as long as
/// both together, starts with the target and continues with the argument; the empty
/// string changes nothing on either side, and joining is associative.
pub proof fn law_string_concat(t: Seq<char>, a: Seq<char>, b: Seq<char>)
    ensures
        spec_str_op(NativeOp::StrConcat, t, seq![ValueV::String(a)]) matches Some(Ok(ValueV::String(r)))
            && r.len() == t.len() + a.len() && r.subrange(0, t.len() as int) == t
            && r.subrange(t.len() as int, r.len() as int) == a,
        spec_str_op(NativeOp::StrConcat, t, seq![ValueV::String(Seq::empty())]) == Some(Ok::<ValueV, NativeFailure>(ValueV::String(t))),
        spec_str_op(NativeOp::StrConcat, Seq::empty(), seq![ValueV::String(a)]) == Some(Ok::<ValueV, NativeFailure>(ValueV::String(a))),
        spec_str_op(NativeOp::StrConcat, t + a, seq![ValueV::String(b)]) == spec_str_op(NativeOp::StrConcat, t, seq![ValueV::String(a + b)]),
{
    assert((t + a).subrange(0, t.len() as int) =~= t);
    assert((t + a).subrange(t.len() as int, (t + a).len() as int) =~= a);
    assert(t + Seq::<char>::empty() =~= t);
    assert(Seq::<char>::empty() + a =~= a);
    assert((t + a) + b =~= t + (a + b));
}

/// String comparison: `=:` holds exactly of equal strings, `!=:` is its negation, and a
/// string is never equal to a value of another kind.
pub proof fn law_string_equality(t: Seq<char>, a: Seq<char>, other: ValueV)
    ensures
        spec_str_op(NativeOp::StrEqual, t, seq![ValueV::String(a)]) == Some(Ok::<ValueV, NativeFailure>(ValueV::Bool(t == a))),
        spec_str_op(NativeOp::StrEqual, t, seq![ValueV::String(t)]) == Some(Ok::<ValueV, NativeFailure>(ValueV::Bool(true))),
        spec_str_op(NativeOp::StrNotEqual, t, seq![other]) matches Some(Ok(ValueV::Bool(ne)))
            && spec_str_op(NativeOp::StrEqual, t, seq![other]) matches Some(Ok(ValueV::Bool(eq))) && ne == !eq,
        !(other is String) ==> spec_str_op(NativeOp::StrEqual, t, seq![other]) == Some(Ok::<ValueV, NativeFailure>(ValueV::Bool(false))),
{
}

/// `at:` and `code at:` read the same character: at an index inside the string, `at:`
/// gives the one-character string of that character and `code at:` its code.
pub proof fn law_string_at_agrees_with_code(t: Seq<char>, i: i64)
    requires
        0 <= i < t.len(),
    ensures
        spec_str_op(NativeOp::StrAt, t, seq![ValueV::Integer(i)]) matches Some(Ok(ValueV::String(s)))
            && s.len() == 1 && s[0] == t[i as int]
            && spec_str_op(NativeOp::StrCodeAt, t, seq![ValueV::Integer(i)]) == Some(Ok::<ValueV, NativeFailure>(ValueV::Integer((s[0] as u32) as i64))),
{
}

/// Wrapping an index into a length counts a non-negative index from the front and a
/// negative one from the end: inside `(-length, length)` the result lies in `[0, length)`
/// and is the index itself, or the index plus the length where it is negative; outside it
/// the index is out of range.
pub proof fn law_at_wrap(length: i64, at: i64)
    requires
        length != i64::MIN,
    ensures
        -length < at < length ==> (spec_at_wrap(length, seq![ValueV::Integer(at)]) matches Some(Ok(ValueV::Integer(r)))
            && 0 <= r < length && (if at >= 0 { r == at } else { r == at + length })),
        !(-length < at < length) ==> spec_at_wrap(length, seq![ValueV::Integer(at)])
            == Some(Err::<ValueV, NativeFailure>(NativeFailure::Panic("index out of range"@))),
{
    if -length < at < length {
        if at >= 0 {
            assert(at % length == at) by (nonlinear_arith)
                requires
                    0 <= at < length,
            ;
        } else {
            assert(at % length == at + length) by (nonlinear_arith)
                requires
                    -length < at < 0,
            ;
        }
    }
}

/// Carries out a string operation on the string `t`.
pub fn apply_str(op: NativeOp, t: &String, args: &Vec<Value>) -> (r: Result<Value, RuntimeError>)
    requires
        args@.len() == (if op is StrLength { 0nat } else { 1nat }),
        spec_str_op(op, t@, args@.map_values(|v: Value| value_view(v))) is Some,
    ensures
        native_matches(r, spec_str_op(op, t@, args@.map_values(|v: Value| value_view(v))).unwrap()),
{
    let ghost av = args@.map_values(|v: Value| value_view(v));
    if let NativeOp::StrLength = op {
        let n = t.as_str().len();
        return Ok(Value::Integer(n as i64));
    }
    assert(av[0] == value_view(args@[0]));
    match op {
        NativeOp::StrConcat => match &args[0] {
            Value::String(a) => {
                let mut s = string_from_str(t.as_str());
                push_str(&mut s, a.as_str());
                Ok(Value::String(Rc::new(s)))
            },
            _ => Err(RuntimeError::ExpectedType(string_from_str("string"))),
        },
        NativeOp::StrEqual => match &args[0] {
            Value::String(a) => Ok(Value::Bool(string_eq(t, a))),
            _ => Ok(Value::Bool(false)),
        },
        NativeOp::StrNotEqual => match &args[0] {
            Value::String(a) => Ok(Value::Bool(!string_eq(t, a))),
            _ => Ok(Value::Bool(true)),
        },
        _ => {
            let i = match &args[0] {
                Value::Integer(i) => *i,
                _ => {
                    proof {
                        assert(false);
                    }
                    0
                },
            };
            let ts = t.as_str();
            let cs = chars_of(ts);
            assert(cs@ == t@);
            assert(0 <= i < t@.len());
            assert(i < cs.len());
            assert(cs.len() <= usize::MAX);
            let idx: usize = i as usize;
            assert(idx as int == i as int);
            let c = cs[idx];
            assert(c == t@[i as int]);
            if let NativeOp::StrCodeAt = op {
                Ok(Value::Integer(c as u32 as i64))
            } else {
                let one = vec![c];
                let s = string_from_chars(&one);
                proof {
                    assert(one@ =~= seq![c]);
                    assert(s@ =~= seq![t@[i as int]]);
                }
                Ok(Value::String(Rc::new(s)))
            }
        },
    }
}

/// Wraps an index sent to the length `length`.
pub fn apply_at_wrap(length: i64, args: &Vec<Value>) -> (r: Result<Value, RuntimeError>)
    requires
        args@.len() == 1,
        spec_at_wrap(length, args@.map_values(|v: Value| value_view(v))) is Some,
    ensures
        native_matches(r, spec_at_wrap(length, args@.map_values(|v: Value| value_view(v))).unwrap()),
{
    let ghost av = args@.map_values(|v: Value| value_view(v));
    assert(av[0] == value_view(args@[0]));
    match &args[0] {
        Value::Integer(at) => {
            let at = *at;
            if length == 0 || at <= -length || at >= length {
                return Err(RuntimeError::Panic(string_from_str("index out of range")));
            }
            match at.checked_rem_euclid(length) {
                Some(x) => Ok(Value::Integer(x)),
                None => {
                    proof {
                        assert(false);
                    }
                    Ok(Value::Integer(0))
                },
            }
        },
        _ => Err(RuntimeError::ExpectedType(string_from_str("integer"))),
    }
}

/// The code of `code at:` or `at:`: the index is wrapped against the string's length,
/// then `op` takes the character there.
pub open spec fn index_body(op: NativeOp) -> Seq<IRV> {
    seq![
        IRV::Local(0),
        IRV::SelfRef,
        IRV::Send("length"@, 0),
        IRV::SendNative(NativeOp::AtWrap, 1),
        IRV::SelfRef,
        IRV::SendNative(op, 1),
    ]
}

/// The handlers of the string class, in the order they are added.
pub open spec fn string_class_handlers() -> Seq<(Seq<char>, HandlerV)> {
    seq![
        native_entry("length"@, 0, NativeOp::StrLength),
        ("++:"@, HandlerV {
            params: seq![Param::Value],
            body: seq![
                IRV::Local(0),
                IRV::Send("to String"@, 0),
                IRV::SelfRef,
                IRV::SendNative(NativeOp::StrConcat, 1),
            ],
        }),
        native_entry("=:"@, 1, NativeOp::StrEqual),
        native_entry("!=:"@, 1, NativeOp::StrNotEqual),
        ("code at:"@, HandlerV { params: seq![Param::Value], body: index_body(NativeOp::StrCodeAt) }),
        ("at:"@, HandlerV { params: seq![Param::Value], body: index_body(NativeOp::StrAt) }),
        ("to String"@, HandlerV { params: seq![], body: seq![IRV::SelfRef] }),
    ]
}

fn index_code(op: NativeOp) -> (b: Vec<IR>)
    ensures
        body_view(b@) == index_body(op),
{
    let b = vec![
        IR::Local(0),
        IR::SelfRef,
        IR::Send(string_from_str("length"), 0),
        IR::SendNative(NativeOp::AtWrap, 1),
        IR::SelfRef,
        IR::SendNative(op, 1),
    ];
    proof {
        lemma_body_view(b@);
        assert(body_view(b@) =~= index_body(op));
    }
    b
}

/// The class of strings.
pub fn build_string_class() -> (c: Rc<Class>)
    ensures
        class_view(*c) == classv_fold(classv_empty(), string_class_handlers()),
{
    let mut class = Class::new();
    let g: Ghost<Seq<(Seq<char>, HandlerV)>> = Ghost(Seq::empty());
    proof {
        assert(class_view(class) == classv_fold(classv_empty(), g@));
    }
    let g = add_native_step(&mut class, g, "length", 0, NativeOp::StrLength);
    let p = vec![Param::Value];
    let b = vec![
        IR::Local(0),
        IR::Send(string_from_str("to String"), 0),
        IR::SelfRef,
        IR::SendNative(NativeOp::StrConcat, 1),
    ];
    proof {
        assert(p@ =~= seq![Param::Value]);
        lemma_body_view(b@);
        assert(body_view(b@) =~= string_class_handlers()[1].1.body);
    }
    let g = add_code_step(&mut class, g, "++:", p, b);
    let g = add_native_step(&mut class, g, "=:", 1, NativeOp::StrEqual);
    let g = add_native_step(&mut class, g, "!=:", 1, NativeOp::StrNotEqual);
    let p = vec![Param::Value];
    proof {
        assert(p@ =~= seq![Param::Value]);
    }
    let g = add_code_step(&mut class, g, "code at:", p, index_code(NativeOp::StrCodeAt));
    let p = vec![Param::Value];
    proof {
        assert(p@ =~= seq![Param::Value]);
    }
    let g = add_code_step(&mut class, g, "at:", p, index_code(NativeOp::StrAt));
    let p: Vec<Param> = vec![];
    let b = vec![IR::SelfRef];
    proof {
        assert(p@ =~= Seq::<Param>::empty());
        lemma_body_view(b@);
        assert(body_view(b@) =~= seq![IRV::SelfRef]);
    }
    let g = add_code_step(&mut class, g, "to String", p, b);
    proof {
        assert(g@ =~= string_class_handlers());
    }
    class.rc()
}

/// What a bool operation gives for the bool target `t` and arguments `args`.
pub open spec fn spec_bool_op(op: NativeOp, t: bool, args: Seq<ValueV>) -> Option<Result<ValueV, NativeFailure>> {
    match op {
        NativeOp::BoolPick => Some(Ok(if t { args[1] } else { args[0] })),
        NativeOp::BoolNot => Some(Ok(ValueV::Bool(!t))),
        NativeOp::BoolAnd => match args[0] {
            ValueV::Bool(a) => Some(Ok(ValueV::Bool(t && a))),
            _ => Some(Err(NativeFailure::ExpectedType("bool"@))),
        },
        NativeOp::BoolOr => match args[0] {
            ValueV::Bool(a) => Some(Ok(ValueV::Bool(t || a))),
            _ => Some(Err(NativeFailure::ExpectedType("bool"@))),
        },
        NativeOp::BoolXor => match args[0] {
            ValueV::Bool(a) => Some(Ok(ValueV::Bool(t != a))),
            _ => Some(Err(NativeFailure::ExpectedType("bool"@))),
        },
        NativeOp::BoolEqual => match args[0] {
            ValueV::Bool(a) => Some(Ok(ValueV::Bool(t == a))),
            _ => Some(Ok(ValueV::Bool(false))),
        },
        _ => None,
    }
}

/// The number of arguments a bool operation takes.
pub open spec fn bool_op_arity(op: NativeOp) -> nat {
    match op {
        NativeOp::BoolPick => 2,
        NativeOp::BoolNot => 0,
        _ => 1,
    }
}

/// Carries out a bool operation on the bool `t`; `false:true:` hands back one of its
/// arguments.
pub fn apply_bool(op: NativeOp, t: bool, args: Vec<Value>) -> (r: Result<Value, RuntimeError>)
    requires
        args@.len() == bool_op_arity(op),
        spec_bool_op(op, t, args@.map_values(|v: Value| value_view(v))) is Some,
    ensures
        native_matches(r, spec_bool_op(op, t, args@.map_values(|v: Value| value_view(v))).unwrap()),
{
    let ghost av = args@.map_values(|v: Value| value_view(v));
    let mut args = args;
    match op {
        NativeOp::BoolPick => {
            let ghost a0 = args@;
            assert(av[0] == value_view(a0[0]) && av[1] == value_view(a0[1]));
            let tv = args.pop().unwrap();
            let fv = args.pop().unwrap();
            if t {
                Ok(tv)
            } else {
                Ok(fv)
            }
        },
        NativeOp::BoolNot => Ok(Value::Bool(!t)),
        _ => {
            assert(av[0] == value_view(args@[0]));
            match (op, &args[0]) {
                (NativeOp::BoolAnd, Value::Bool(a)) => Ok(Value::Bool(t && *a)),
                (NativeOp::BoolOr, Value::Bool(a)) => Ok(Value::Bool(t || *a)),
                (NativeOp::BoolXor, Value::Bool(a)) => Ok(Value::Bool(t != *a)),
                (NativeOp::BoolEqual, Value::Bool(a)) => Ok(Value::Bool(t == *a)),
                (NativeOp::BoolEqual, _) => Ok(Value::Bool(false)),
                _ => Err(RuntimeError::ExpectedType(string_from_str("bool"))),
            }
        },
    }
}

/// Whether the bool operation `op` on target `t` and the bool argument `a` answers `true`.
pub open spec fn bool_test(op: NativeOp, t: bool, a: bool) -> bool {
    spec_bool_op(op, t, seq![ValueV::Bool(a)]) matches Some(Ok(ValueV::Bool(b))) && b
}

/// What `!` answers for the target `t`.
pub open spec fn bool_negation(t: bool) -> bool {
    spec_bool_op(NativeOp::BoolNot, t, seq![]) matches Some(Ok(ValueV::Bool(b))) && b
}

/// The bool operations are the connectives of logic: each answers with a bool; `!` is an
/// involution that changes its target; `||:` holds where either side holds and fails
/// only where both fail; `&&:` holds only where both hold; both are commutative and related
/// by De Morgan's law through `!`; `^:` holds where exactly one side holds, and `=:` where
/// they agree.
pub proof fn law_bool_logic(t: bool, a: bool)
    ensures
        spec_bool_op(NativeOp::BoolAnd, t, seq![ValueV::Bool(a)]) matches Some(Ok(ValueV::Bool(_))),
        spec_bool_op(NativeOp::BoolOr, t, seq![ValueV::Bool(a)]) matches Some(Ok(ValueV::Bool(_))),
        spec_bool_op(NativeOp::BoolXor, t, seq![ValueV::Bool(a)]) matches Some(Ok(ValueV::Bool(_))),
        spec_bool_op(NativeOp::BoolEqual, t, seq![ValueV::Bool(a)]) matches Some(Ok(ValueV::Bool(_))),
        spec_bool_op(NativeOp::BoolNot, t, seq![]) matches Some(Ok(ValueV::Bool(_))),
        bool_negation(bool_negation(t)) == t,
        bool_negation(t) != t,
        bool_test(NativeOp::BoolOr, t, true),
        bool_test(NativeOp::BoolOr, true, a),
        bool_test(NativeOp::BoolOr, t, false) == t,
        bool_test(NativeOp::BoolOr, t, a) == bool_test(NativeOp::BoolOr, a, t),
        !bool_test(NativeOp::BoolAnd, t, false),
        bool_test(NativeOp::BoolAnd, t, true) == t,
        bool_test(NativeOp::BoolAnd, t, a) == bool_test(NativeOp::BoolAnd, a, t),
        bool_test(NativeOp::BoolOr, t, a) == !bool_test(NativeOp::BoolAnd, bool_negation(t), bool_negation(a)),
        bool_test(NativeOp::BoolAnd, t, a) == !bool_test(NativeOp::BoolOr, bool_negation(t), bool_negation(a)),
        bool_test(NativeOp::BoolXor, t, a) == (bool_test(NativeOp::BoolOr, t, a) && !bool_test(NativeOp::BoolAnd, t, a)),
        bool_test(NativeOp::BoolEqual, t, a) == !bool_test(NativeOp::BoolXor, t, a),
        bool_test(NativeOp::BoolEqual, t, t),
{
}

/// `false:true:` picks its second argument on a true target and its first on a false one,
/// whatever the two values are.
pub proof fn law_bool_pick(x: ValueV, y: ValueV)
    ensures
        spec_bool_op(NativeOp::BoolPick, true, seq![x, y]) == Some(Ok::<ValueV, NativeFailure>(y)),
        spec_bool_op(NativeOp::BoolPick, false, seq![x, y]) == Some(Ok::<ValueV, NativeFailure>(x)),
{
}

/// The handlers of the bool class, in the order they are added.
pub open spec fn bool_class_handlers() -> Seq<(Seq<char>, HandlerV)> {
    seq![
        native_entry("false:true:"@, 2, NativeOp::BoolPick),
        native_entry("!"@, 0, NativeOp::BoolNot),
        native_entry("&&:"@, 1, NativeOp::BoolAnd),
        native_entry("||:"@, 1, NativeOp::BoolOr),
        native_entry("^^:"@, 1, NativeOp::BoolXor),
        native_entry("=:"@, 1, NativeOp::BoolEqual),
        ("!=:"@, HandlerV {
            params: seq![Param::Value],
            body: seq![IRV::Local(0), IRV::SelfRef, IRV::Send("=:"@, 1), IRV::Send("!"@, 0)],
        }),
        (":"@, HandlerV {
            params: seq![Param::Do],
            body: seq![IRV::Local(0), IRV::SelfRef, IRV::Native(MoreOp::BoolMatch)],
        }),
    ]
}

/// The class of bools.
pub fn build_bool_class() -> (c: Rc<Class>)
    ensures
        class_view(*c) == classv_fold(classv_empty(), bool_class_handlers()),
{
    let mut class = Class::new();
    let g: Ghost<Seq<(Seq<char>, HandlerV)>> = Ghost(Seq::empty());
    proof {
        assert(class_view(class) == classv_fold(classv_empty(), g@));
    }
    let g = add_native_step(&mut class, g, "false:true:", 2, NativeOp::BoolPick);
    let g = add_native_step(&mut class, g, "!", 0, NativeOp::BoolNot);
    let g = add_native_step(&mut class, g, "&&:", 1, NativeOp::BoolAnd);
    let g = add_native_step(&mut class, g, "||:", 1, NativeOp::BoolOr);
    let g = add_native_step(&mut class, g, "^^:", 1, NativeOp::BoolXor);
    let g = add_native_step(&mut class, g, "=:", 1, NativeOp::BoolEqual);
    let p = vec![Param::Value];
    let b = vec![
        IR::Local(0),
        IR::SelfRef,
        IR::Send(string_from_str("=:"), 1),
        IR::Send(string_from_str("!"), 0),
    ];
    proof {
        assert(p@ =~= seq![Param::Value]);
        lemma_body_view(b@);
        assert(body_view(b@) =~= bool_class_handlers()[6].1.body);
    }
    let g = add_code_step(&mut class, g, "!=:", p, b);
    let p = vec![Param::Do];
    let b = vec![IR::Local(0), IR::SelfRef, IR::Native(MoreOp::BoolMatch)];
    proof {
        assert(p@ =~= seq![Param::Do]);
        lemma_body_view(b@);
        assert(body_view(b@) =~= bool_class_handlers()[7].1.body);
    }
    let g = add_code_step(&mut class, g, ":", p, b);
    proof {
        assert(g@ =~= bool_class_handlers());
    }
    class.rc()
}

} // verus!
