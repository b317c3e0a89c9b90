use vstd::prelude::*;

use std::rc::Rc;

use crate::runtime_2::{add_sorted, keys_of, keys_sorted, lookup_sorted};
use crate::sorted::{
    keyed, lemma_add_sorted_map, lemma_lookup_map_entries, lemma_map_entries_keys, map_entries,
    sorted_insert,
};
use crate::text::string_eq;

verus! {

pub type Address = usize;

pub type Index = usize;

pub type Arity = usize;

pub type Selector = String;

/// How a handler takes an argument: by value, as a `var` cell, or as a do-block.
#[derive(Debug, Copy, Clone, PartialEq)]
pub enum Param {
    Value,
    Var,
    Do,
}

/// The operations the machine carries out itself in place of a handler body.
#[derive(Debug, Copy, Clone, PartialEq)]
pub enum NativeOp {
    /// `true` where the target equals the argument.
    Equal,
    /// `true` where the target differs from the argument.
    NotEqual,
    /// Integer arithmetic: `+:`, `-:`, `*:`, `%:` (Euclidean remainder), `>>:`, `<<:`,
    /// and negation.
    IntAdd,
    IntSub,
    IntMul,
    IntRem,
    IntShr,
    IntShl,
    IntNeg,
    /// The decimal text of an integer.
    IntToString,
    /// Integer value comparison: against a non-integer, `=:` is false and `!=:` true.
    IntEqual,
    IntNotEqual,
    /// Numeric comparison: the argument must be an integer.
    IntLt,
    IntLe,
    IntNumEq,
    IntNumNe,
    IntGe,
    IntGt,
    /// The length of a string in bytes (its UTF-8 encoding).
    StrLength,
    /// A string followed by the argument, which must be a string.
    StrConcat,
    /// String value comparison: against a non-string, `=:` is false and `!=:` true.
    StrEqual,
    StrNotEqual,
    /// An index counted from either end, checked against the length it is sent to.
    AtWrap,
    /// The code of the character at an index of a string.
    StrCodeAt,
    /// The character at an index of a string, as a string.
    StrAt,
    /// `false:true:`: the second argument where the target is true, the first otherwise.
    BoolPick,
    /// Negation, and `&&:`, `||:`, `^^:` with a bool argument.
    BoolNot,
    BoolAnd,
    BoolOr,
    BoolXor,
    /// Bool value comparison: against a non-bool it is false.
    BoolEqual,
}

/// Work the machine does itself on its stack, in place of an instruction sequence.
#[derive(Debug, Copy, Clone, PartialEq)]
pub enum MoreOp {
    /// Pops a bool and, under it, a target, and sends `true` or `false` to the target.
    BoolMatch,
}

/// Errors the machine stops with.
#[derive(Debug, PartialEq)]
pub enum RuntimeError {
    DoesNotUnderstand(Selector),
    ExpectedVarArg,
    DidNotExpectDoArg,
    ExpectedType(String),
    ModuleLoadLoop(String),
    UnknownModule(String),
    Panic(String),
}

pub type Runtime<T> = Result<T, RuntimeError>;

/// The machine's instructions; each comment gives the stack before and after.
#[derive(Debug, PartialEq)]
pub enum IR {
    Constant(Value),  // ( -- value)
    Local(Address),  // ( -- *address)
    Var(Address),  // ( -- address)
    IVal(Index),  // ( -- instance[index])
    SelfRef,  // ( -- self_value)
    Module(String),  // ( -- module)
    Object(Rc<Class>, Arity),  // (...instance -- object)
    DoObject(Rc<Class>, Arity),  // (...instance -- object)
    NewSelf(Arity),  // (...instance -- object)
    Deref,  // (address -- *address)
    SetVar,  // (value address -- )
    Send(Selector, Arity),  // (...args target -- result)
    TrySend(Selector, Arity),  // (...args target -- result)
    SendNative(NativeOp, Arity),  // (...args target -- result)
    Native(MoreOp),  // (...)
    Drop,  // (value --)
    Return,
    Loop,
}

/// The machine's values that code can hold as constants or build.
#[derive(Debug, PartialEq)]
pub enum Value {
    Unit,
    Bool(bool),
    Integer(i64),
    String(Rc<String>),
    Object(Rc<Class>, Rc<Vec<Value>>),
    DoObject(Rc<Class>, Rc<Vec<Value>>, usize, Box<Value>),
    Pointer(Address),
}

/// A message handler: its parameters and the code it runs.
#[derive(Debug, PartialEq)]
pub struct Handler {
    pub params: Vec<Param>,
    pub body: Rc<Vec<IR>>,
}

/// A class: its handlers, kept in selector order.
#[derive(Debug, PartialEq)]
pub struct Class {
    handlers: Vec<(Selector, Handler)>,
}

// ---------------------------------------------------------------------------
// Views
// ---------------------------------------------------------------------------
/// The view of an instruction.
pub enum IRV {
    Constant(ValueV),
    Local(Address),
    Var(Address),
    IVal(Index),
    SelfRef,
    Module(Seq<char>),
    Object(ClassV, Arity),
    DoObject(ClassV, Arity),
    NewSelf(Arity),
    Deref,
    SetVar,
    Send(Seq<char>, Arity),
    TrySend(Seq<char>, Arity),
    SendNative(NativeOp, Arity),
    Native(MoreOp),
    Drop,
    Return,
    Loop,
}

/// The view of a value.
pub enum ValueV {
    Unit,
    Bool(bool),
    Integer(i64),
    String(Seq<char>),
    Object(ClassV, Seq<ValueV>),
    DoObject(ClassV, Seq<ValueV>, usize, Box<ValueV>),
    Pointer(Address),
}

/// The view of a handler.
pub struct HandlerV {
    pub params: Seq<Param>,
    pub body: Seq<IRV>,
}

/// The view of a class: its handlers in selector order.
pub struct ClassV {
    pub handlers: Seq<(Seq<char>, HandlerV)>,
}

pub open spec fn ir_view(ir: IR) -> IRV
    decreases ir,
{
    match ir {
        IR::Constant(v) => IRV::Constant(value_view(v)),
        IR::Local(a) => IRV::Local(a),
        IR::Var(a) => IRV::Var(a),
        IR::IVal(i) => IRV::IVal(i),
        IR::SelfRef => IRV::SelfRef,
        IR::Module(m) => IRV::Module(m@),
        IR::Object(c, n) => IRV::Object(class_view(*c), n),
        IR::DoObject(c, n) => IRV::DoObject(class_view(*c), n),
        IR::NewSelf(n) => IRV::NewSelf(n),
        IR::Deref => IRV::Deref,
        IR::SetVar => IRV::SetVar,
        IR::Send(s, n) => IRV::Send(s@, n),
        IR::TrySend(s, n) => IRV::TrySend(s@, n),
        IR::SendNative(op, n) => IRV::SendNative(op, n),
        IR::Native(m) => IRV::Native(m),
        IR::Drop => IRV::Drop,
        IR::Return => IRV::Return,
        IR::Loop => IRV::Loop,
    }
}

pub open spec fn value_view(v: Value) -> ValueV
    decreases v,
{
    match v {
        Value::Unit => ValueV::Unit,
        Value::Bool(b) => ValueV::Bool(b),
        Value::Integer(i) => ValueV::Integer(i),
        Value::String(s) => ValueV::String((*s)@),
        Value::Object(c, iv) => ValueV::Object(class_view(*c), values_view((*iv)@)),
        Value::DoObject(c, iv, p, s) => ValueV::DoObject(
            class_view(*c),
            values_view((*iv)@),
            p,
            Box::new(value_view(*s)),
        ),
        Value::Pointer(a) => ValueV::Pointer(a),
    }
}

pub open spec fn values_view(vs: Seq<Value>) -> Seq<ValueV>
    decreases vs,
{
    if vs.len() == 0 {
        Seq::empty()
    } else {
        seq![value_view(vs[0])] + values_view(vs.drop_first())
    }
}

pub closed spec fn class_view(c: Class) -> ClassV
    decreases c,
{
    ClassV { handlers: entries_view(c.handlers@) }
}

pub open spec fn entries_view(hs: Seq<(Selector, Handler)>) -> Seq<(Seq<char>, HandlerV)>
    decreases hs,
{
    if hs.len() == 0 {
        Seq::empty()
    } else {
        seq![(hs[0].0@, handler_view(hs[0].1))] + entries_view(hs.drop_first())
    }
}

pub open spec fn handler_view(h: Handler) -> HandlerV
    decreases h,
{
    HandlerV { params: h.params@, body: body_view(h.body@) }
}

/// The view of a sequence of instructions.
pub open spec fn body_view(b: Seq<IR>) -> Seq<IRV>
    decreases b,
{
    if b.len() == 0 {
        Seq::empty()
    } else {
        seq![ir_view(b[0])] + body_view(b.drop_first())
    }
}

pub proof fn lemma_body_view(b: Seq<IR>)
    ensures
        body_view(b).len() == b.len(),
        forall|i: int| 0 <= i < b.len() ==> #[trigger] body_view(b)[i] == ir_view(b[i]),
    decreases b.len(),
{
    if b.len() > 0 {
        lemma_body_view(b.drop_first());
        assert forall|i: int| 0 <= i < b.len() implies #[trigger] body_view(b)[i] == ir_view(b[i]) by {
            if i > 0 {
                assert(b.drop_first()[i - 1] == b[i]);
            }
        }
    }
}

pub proof fn lemma_body_view_push(a: Seq<IR>, x: IR)
    ensures
        body_view(a.push(x)) == body_view(a).push(ir_view(x)),
{
    lemma_body_view(a);
    lemma_body_view(a.push(x));
    assert(body_view(a.push(x)) =~= body_view(a).push(ir_view(x)));
}

pub proof fn lemma_body_view_concat(a: Seq<IR>, b: Seq<IR>)
    ensures
        body_view(a + b) == body_view(a) + body_view(b),
{
    lemma_body_view(a);
    lemma_body_view(b);
    lemma_body_view(a + b);
    assert(body_view(a + b) =~= body_view(a) + body_view(b));
}

/// The handler views, as a map of the entries' values.
pub open spec fn handler_view_fn() -> spec_fn(Handler) -> HandlerV {
    |h: Handler| handler_view(h)
}

proof fn lemma_entries_view_map(hs: Seq<(Selector, Handler)>)
    ensures
        entries_view(hs) == map_entries(keyed(hs), handler_view_fn()),
    decreases hs.len(),
{
    if hs.len() > 0 {
        lemma_entries_view_map(hs.drop_first());
        assert(keyed(hs).drop_first() =~= keyed(hs.drop_first()));
        assert(map_entries(keyed(hs), handler_view_fn()) =~= seq![(hs[0].0@, handler_view(hs[0].1))]
            + map_entries(keyed(hs.drop_first()), handler_view_fn()));
    } else {
        assert(map_entries(keyed(hs), handler_view_fn()) =~= Seq::<(Seq<char>, HandlerV)>::empty());
    }
}

/// A class view with no handlers.
pub open spec fn classv_empty() -> ClassV {
    ClassV { handlers: Seq::empty() }
}

/// A class view after adding a handler (replacing one with the same selector).
pub open spec fn classv_add(c: ClassV, sel: Seq<char>, h: HandlerV) -> ClassV {
    ClassV { handlers: add_sorted(c.handlers, sel, h) }
}

/// The handler a class view has for `sel`, if any.
pub open spec fn classv_lookup(c: ClassV, sel: Seq<char>) -> Option<HandlerV> {
    lookup_sorted(c.handlers, sel)
}

/// A lookup right after an add gives the added handler; every other selector gives what
/// it gave before.
pub proof fn law_class_get_after_add(c: ClassV, sel: Seq<char>, h: HandlerV, other: Seq<char>)
    ensures
        classv_lookup(classv_add(c, sel, h), sel) == Some(h),
        other != sel ==> classv_lookup(classv_add(c, sel, h), other) == classv_lookup(c, other),
{
    crate::sorted::lemma_lookup_add_sorted(c.handlers, sel, h, other);
}

impl Class {
    #[verifier::type_invariant]
    spec fn sorted(self) -> bool {
        keys_sorted(keys_of(keyed(self.handlers@)))
    }

    pub fn new() -> (c: Self)
        ensures
            class_view(c) == classv_empty(),
    {
        let c = Class { handlers: Vec::new() };
        proof {
            assert(entries_view(c.handlers@) =~= Seq::<(Seq<char>, HandlerV)>::empty());
        }
        c
    }

    /// Adds a handler; a handler already there for the same selector is replaced.
    pub fn add_handler(&mut self, selector: String, params: Vec<Param>, body: Vec<IR>)
        ensures
            class_view(*final(self)) == classv_add(
                class_view(*old(self)),
                selector@,
                HandlerV { params: params@, body: body_view(body@) },
            ),
    {
        proof {
            use_type_invariant(&*self);
        }
        let ghost old_hs = self.handlers@;
        let handler = Handler { params, body: Rc::new(body) };
        let ghost h = handler;
        let mut hs: Vec<(Selector, Handler)> = Vec::new();
        std::mem::swap(&mut hs, &mut self.handlers);
        let ghost sel = selector@;
        sorted_insert(&mut hs, selector, handler);
        self.handlers = hs;
        proof {
            lemma_entries_view_map(old_hs);
            lemma_entries_view_map(self.handlers@);
            lemma_add_sorted_map(keyed(old_hs), sel, h, handler_view_fn());
        }
    }

    /// Adds a handler given the selector as a string slice.
    pub fn add(&mut self, selector: &str, params: Vec<Param>, body: Vec<IR>)
        ensures
            class_view(*final(self)) == classv_add(
                class_view(*old(self)),
                selector@,
                HandlerV { params: params@, body: body_view(body@) },
            ),
    {
        let s = crate::text::string_from_str(selector);
        self.add_handler(s, params, body)
    }

    /// Adds a handler that the machine carries out itself: the target is pushed and `op`
    /// applied to it and the arguments.
    pub fn add_native(&mut self, selector: &str, params: Vec<Param>, op: NativeOp)
        ensures
            class_view(*final(self)) == classv_add(
                class_view(*old(self)),
                selector@,
                HandlerV {
                    params: params@,
                    body: seq![IRV::SelfRef, IRV::SendNative(op, params@.len() as usize)],
                },
            ),
    {
        let arity = params.len();
        let body = vec![IR::SelfRef, IR::SendNative(op, arity)];
        proof {
            lemma_body_view(body@);
            assert(body_view(body@) =~= seq![IRV::SelfRef, IRV::SendNative(op, arity)]);
        }
        self.add(selector, params, body)
    }

    /// The handler for `selector`, if the class has one.
    pub fn get(&self, selector: &String) -> (r: Option<&Handler>)
        ensures
            match r {
                Some(h) => classv_lookup(class_view(*self), selector@) == Some(handler_view(*h)),
                None => classv_lookup(class_view(*self), selector@) is None,
            },
    {
        proof {
            lemma_entries_view_map(self.handlers@);
            lemma_lookup_map_entries(keyed(self.handlers@), selector@, handler_view_fn());
        }
        let n = self.handlers.len();
        let mut i: usize = 0;
        assert(keyed(self.handlers@).skip(0) == keyed(self.handlers@));
        while i < n
            invariant
                n == self.handlers@.len(),
                i <= n,
                classv_lookup(class_view(*self), selector@) == match lookup_sorted(
                    keyed(self.handlers@),
                    selector@,
                ) {
                    Some(h) => Some(handler_view(h)),
                    None => None::<HandlerV>,
                },
                lookup_sorted(keyed(self.handlers@), selector@) == lookup_sorted(
                    keyed(self.handlers@).skip(i as int),
                    selector@,
                ),
            decreases n - i,
        {
            let ghost rk = keyed(self.handlers@);
            assert(rk.skip(i as int)[0] == (self.handlers@[i as int].0@, self.handlers@[i as int].1));
            if string_eq(&self.handlers[i].0, selector) {
                assert(lookup_sorted(rk.skip(i as int), selector@) == Some(self.handlers@[i as int].1));
                return Some(&self.handlers[i].1);
            }
            assert(rk.skip(i as int).drop_first() == rk.skip(i + 1));
            i = i + 1;
        }
        None
    }

    pub fn rc(self) -> (r: Rc<Class>)
        ensures
            *r == self,
    {
        Rc::new(self)
    }
}

impl IR {
    pub fn unit() -> (r: Self)
        ensures
            ir_view(r) == IRV::Constant(ValueV::Unit),
    {
        IR::Constant(Value::Unit)
    }

    pub fn integer(value: i64) -> (r: Self)
        ensures
            ir_view(r) == IRV::Constant(ValueV::Integer(value)),
    {
        IR::Constant(Value::Integer(value))
    }

    pub fn bool(value: bool) -> (r: Self)
        ensures
            ir_view(r) == IRV::Constant(ValueV::Bool(value)),
    {
        IR::Constant(Value::Bool(value))
    }

    pub fn string(value: String) -> (r: Self)
        ensures
            ir_view(r) == IRV::Constant(ValueV::String(value@)),
    {
        IR::Constant(Value::String(Rc::new(value)))
    }

    pub fn send(selector: &str, arity: usize) -> (r: Self)
        ensures
            ir_view(r) == IRV::Send(selector@, arity),
    {
        IR::Send(crate::text::string_from_str(selector), arity)
    }

    /// Building an object of `class` from `arity` values on the stack; an object with no
    /// instance values is a constant.
    pub fn object(class: Rc<Class>, arity: usize) -> (r: Self)
        ensures
            arity == 0 ==> ir_view(r) == IRV::Constant(ValueV::Object(class_view(*class), Seq::empty())),
            arity != 0 ==> ir_view(r) == IRV::Object(class_view(*class), arity),
    {
        if arity == 0 {
            let v: Vec<Value> = Vec::new();
            proof {
                assert(values_view(v@) =~= Seq::<ValueV>::empty());
            }
            IR::Constant(Value::Object(class, Rc::new(v)))
        } else {
            IR::Object(class, arity)
        }
    }
}

impl Value {
    pub fn as_bool(self) -> (b: bool)
        requires
            self is Bool,
        ensures
            self == Value::Bool(b),
    {
        match self {
            Value::Bool(val) => val,
            _ => vstd::pervasive::unreached(),
        }
    }

    pub fn as_int(self) -> (i: i64)
        requires
            self is Integer,
        ensures
            self == Value::Integer(i),
    {
        match self {
            Value::Integer(val) => val,
            _ => vstd::pervasive::unreached(),
        }
    }

    pub fn as_string(self) -> (s: Rc<String>)
        requires
            self is String,
        ensures
            self == Value::String(s),
    {
        match self {
            Value::String(s) => s,
            _ => vstd::pervasive::unreached(),
        }
    }

    pub fn as_pointer(self) -> (a: usize)
        requires
            self is Pointer,
        ensures
            self == Value::Pointer(a),
    {
        match self {
            Value::Pointer(address) => address,
            _ => vstd::pervasive::unreached(),
        }
    }

    /// The class a value answers messages with: that of its kind for the built-in
    /// values, its own for objects. A pointer is dereferenced before a send, so has none.
    pub fn class(&self) -> (c: Rc<Class>)
        requires
            !(self is Pointer),
        ensures
            class_view(*c) == match *self {
                Value::Unit => classv_empty(),
                Value::Integer(_) => crate::ast::classv_fold(classv_empty(), crate::native::int_class_handlers()),
                Value::String(_) => crate::ast::classv_fold(classv_empty(), crate::native::string_class_handlers()),
                Value::Bool(_) => crate::ast::classv_fold(classv_empty(), crate::native::bool_class_handlers()),
                Value::Object(k, _) => class_view(*k),
                Value::DoObject(k, _, _, _) => class_view(*k),
                Value::Pointer(_) => classv_empty(),
            },
    {
        match self {
            Value::Unit => Class::new().rc(),
            Value::Integer(_) => crate::native::build_int_class(),
            Value::String(_) => crate::native::build_string_class(),
            Value::Bool(_) => crate::native::build_bool_class(),
            Value::Object(class, _) => crate::runtime_2::rc_clone(class),
            Value::DoObject(class, _, _, _) => crate::runtime_2::rc_clone(class),
            Value::Pointer(_) => vstd::pervasive::unreached(),
        }
    }

    /// The instance values of a value: none for the built-in values, an object's own.
    pub fn ivals(&self) -> (iv: Rc<Vec<Value>>)
        requires
            !(self is Unit || self is DoObject || self is Pointer),
        ensures
            match *self {
                Value::Object(_, v) => iv == v,
                _ => (*iv)@ == Seq::<Value>::empty(),
            },
    {
        match self {
            Value::Object(_, ivals) => crate::runtime_2::rc_clone(ivals),
            _ => Rc::new(Vec::new()),
        }
    }
}

impl Param {
    /// Whether an argument fits the parameter: a `var` parameter takes a pointer, and only
    /// a `do` parameter takes a do-block.
    pub fn check_arg(&self, arg: &Value) -> (r: Runtime<()>)
        ensures
            match (*self, *arg) {
                (Param::Var, Value::Pointer(_)) => r is Ok,
                (Param::Var, _) => r == Err::<(), RuntimeError>(RuntimeError::ExpectedVarArg),
                (Param::Do, Value::DoObject(..)) => r is Ok,
                (_, Value::DoObject(..)) => r == Err::<(), RuntimeError>(RuntimeError::DidNotExpectDoArg),
                _ => r is Ok,
            },
    {
        match (self, arg) {
            (Param::Var, Value::Pointer(_)) => Ok(()),
            (Param::Var, _) => Err(RuntimeError::ExpectedVarArg),
            (Param::Do, Value::DoObject(..)) => Ok(()),
            (_, Value::DoObject(..)) => Err(RuntimeError::DidNotExpectDoArg),
            _ => Ok(()),
        }
    }
}


} // verus!
