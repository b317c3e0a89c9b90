use std::rc::Rc;
use vstd::prelude::*;
use vstd::string::StrSliceExecFns;

use crate::text::{
    lemma_seq_lt_asymmetric, lemma_seq_lt_irreflexive, lemma_seq_lt_total,
    lemma_seq_lt_transitive, seq_lt, string_eq, string_lt,
};

verus! {

/// Errors a program can stop with.
#[derive(Debug, PartialEq)]
pub enum RuntimeError {
    /// The target of a send has no handler for the selector.
    DoesNotUnderstand(Selector),
    /// The run did not finish within the step budget of `Interpreter::program`.
    StepLimitExceeded,
}

pub type Runtime<T> = Result<T, RuntimeError>;

pub type Address = usize;
pub type Selector = String;
pub type Index = usize;
pub type Body = Rc<Vec<IR>>;
pub type Instance = Rc<Vec<Value>>;
pub type ParentFrameIndex = usize;

/// A copy of the `Rc` pointer, pointing at the same value.
/// Calls std's `Rc::clone`, which per its documentation makes another pointer to the same
/// allocation; the contract claims the copy denotes the same value.
#[verifier::external_body]
pub(crate) fn rc_clone<T>(r: &Rc<T>) -> (c: Rc<T>)
    ensures
        c == *r,
{
    Rc::clone(r)
}

/// Instructions of the stack machine; the comments give the stack effect.
#[derive(Debug, PartialEq)]
pub enum IR {
    Unit,  // (-- value)
    Integer(i64),  // (-- value)
    Local(Address),  // ( -- *address)
    Var(Address),  // ( -- address)
    IVal(Index),  // ( -- instance[index])
    Object(Rc<Class>),  // (...instance -- object)
    DoObject(Rc<Class>),  // (...instance -- object)
    Deref,  // (address -- *address)
    SetVar,  // (value address -- )
    Send(Selector),  // (...args target -- result)
    Drop,  // (value --)
    Return,
}

impl Clone for IR {
    fn clone(&self) -> (r: Self)
        ensures
            r == *self,
    {
        match self {
            IR::Unit => IR::Unit,
            IR::Integer(v) => IR::Integer(*v),
            IR::Local(a) => IR::Local(*a),
            IR::Var(a) => IR::Var(*a),
            IR::IVal(i) => IR::IVal(*i),
            IR::Object(c) => IR::Object(rc_clone(c)),
            IR::DoObject(c) => IR::DoObject(rc_clone(c)),
            IR::Deref => IR::Deref,
            IR::SetVar => IR::SetVar,
            IR::Send(s) => IR::Send(s.clone()),
            IR::Drop => IR::Drop,
            IR::Return => IR::Return,
        }
    }
}

/// Runtime values.
#[derive(Debug, PartialEq)]
pub enum Value {
    Unit,
    Integer(i64),
    Object(Rc<Class>, Instance),
    DoObject(Rc<Class>, Instance, ParentFrameIndex),
    Pointer(Address),
}

impl Clone for Value {
    fn clone(&self) -> (r: Self)
        ensures
            r == *self,
    {
        match self {
            Value::Unit => Value::Unit,
            Value::Integer(v) => Value::Integer(*v),
            Value::Object(c, iv) => Value::Object(rc_clone(c), rc_clone(iv)),
            Value::DoObject(c, iv, r) => Value::DoObject(rc_clone(c), rc_clone(iv), *r),
            Value::Pointer(a) => Value::Pointer(*a),
        }
    }
}

/// The kind of argument a handler expects in a parameter position.
#[derive(Debug, Clone, Copy, PartialEq)]
pub enum Param {
    Value,
    Var,
    Do,
}

/// A message handler: its parameters and the code it runs.
#[derive(Debug, PartialEq)]
pub struct Handler {
    pub params: Vec<Param>,
    pub body: Body,
}

/// A class: handlers kept in selector order, and the number of instance values its
/// objects carry.
#[derive(Debug, PartialEq)]
pub struct Class {
    handlers: Vec<(Selector, Handler)>,
    ivals: usize,
}

// ---------------------------------------------------------------------------
// Mathematical views of code (used to state what the compiler produces)
// ---------------------------------------------------------------------------
/// The view of an instruction.
pub enum IRV {
    Unit,
    Integer(i64),
    Local(Address),
    Var(Address),
    IVal(Index),
    Object(ClassV),
    DoObject(ClassV),
    Deref,
    SetVar,
    Send(Seq<char>),
    Drop,
    Return,
}

/// The view of a handler.
pub struct HandlerV {
    pub params: Seq<Param>,
    pub body: Seq<IRV>,
}

/// The view of a class: its handlers in selector order and its instance value count.
pub struct ClassV {
    pub handlers: Seq<(Seq<char>, HandlerV)>,
    pub ivals: nat,
}

pub open spec fn ir_view(ir: IR) -> IRV
    decreases ir,
{
    match ir {
        IR::Unit => IRV::Unit,
        IR::Integer(v) => IRV::Integer(v),
        IR::Local(a) => IRV::Local(a),
        IR::Var(a) => IRV::Var(a),
        IR::IVal(i) => IRV::IVal(i),
        IR::Object(c) => IRV::Object(class_view(*c)),
        IR::DoObject(c) => IRV::DoObject(class_view(*c)),
        IR::Deref => IRV::Deref,
        IR::SetVar => IRV::SetVar,
        IR::Send(s) => IRV::Send(s@),
        IR::Drop => IRV::Drop,
        IR::Return => IRV::Return,
    }
}

pub closed spec fn class_view(c: Class) -> ClassV
    decreases c,
{
    ClassV { handlers: entries_view(c.handlers@), ivals: c.ivals as nat }
}

pub open spec fn entries_view(hs: Seq<(Selector, Handler)>) -> Seq<(Seq<char>, HandlerV)>
    decreases hs,
{
    if hs.len() == 0 {
        Seq::empty()
    } else {
        seq![(hs[0].0@, handler_view(hs[0].1))] + entries_view(hs.drop_first())
    }
}

pub open spec fn handler_view(h: Handler) -> HandlerV
    decreases h,
{
    HandlerV { params: h.params@, body: body_view(h.body@) }
}

/// The view of a sequence of instructions.
pub open spec fn body_view(b: Seq<IR>) -> Seq<IRV>
    decreases b,
{
    if b.len() == 0 {
        Seq::empty()
    } else {
        seq![ir_view(b[0])] + body_view(b.drop_first())
    }
}

pub proof fn lemma_body_view(b: Seq<IR>)
    ensures
        body_view(b).len() == b.len(),
        forall|i: int| 0 <= i < b.len() ==> #[trigger] body_view(b)[i] == ir_view(b[i]),
    decreases b.len(),
{
    if b.len() > 0 {
        lemma_body_view(b.drop_first());
        assert forall|i: int| 0 <= i < b.len() implies #[trigger] body_view(b)[i] == ir_view(b[i]) by {
            if i > 0 {
                assert(b.drop_first()[i - 1] == b[i]);
            }
        }
    }
}

pub proof fn lemma_body_view_concat(a: Seq<IR>, b: Seq<IR>)
    ensures
        body_view(a + b) == body_view(a) + body_view(b),
{
    lemma_body_view(a);
    lemma_body_view(b);
    lemma_body_view(a + b);
    assert(body_view(a + b) =~= body_view(a) + body_view(b));
}

pub proof fn lemma_body_view_push(a: Seq<IR>, x: IR)
    ensures
        body_view(a.push(x)) == body_view(a).push(ir_view(x)),
{
    lemma_body_view(a);
    lemma_body_view(a.push(x));
    assert(body_view(a.push(x)) =~= body_view(a).push(ir_view(x)));
}

pub proof fn lemma_entries_view(hs: Seq<(Selector, Handler)>)
    ensures
        entries_view(hs).len() == hs.len(),
        forall|i: int|
            0 <= i < hs.len() ==> #[trigger] entries_view(hs)[i] == (hs[i].0@, handler_view(hs[i].1)),
    decreases hs.len(),
{
    if hs.len() > 0 {
        lemma_entries_view(hs.drop_first());
        assert forall|i: int| 0 <= i < hs.len() implies #[trigger] entries_view(hs)[i] == (
        hs[i].0@, handler_view(hs[i].1)) by {
            if i > 0 {
                assert(hs.drop_first()[i - 1] == hs[i]);
            }
        }
    }
}

// ---------------------------------------------------------------------------
// Handler lists sorted by selector
// ---------------------------------------------------------------------------
/// Where a handler for `sel` belongs in a list of handler selectors sorted in order:
/// the number of leading selectors that come before `sel`.
pub open spec fn key_pos(keys: Seq<Seq<char>>, sel: Seq<char>) -> nat
    decreases keys.len(),
{
    if keys.len() == 0 {
        0
    } else if seq_lt(keys[0], sel) {
        1 + key_pos(keys.drop_first(), sel)
    } else {
        0
    }
}

/// The selectors of a handler list.
pub open spec fn keys_of<H>(hs: Seq<(Seq<char>, H)>) -> Seq<Seq<char>> {
    hs.map_values(|e: (Seq<char>, H)| e.0)
}

/// Adds a handler for `sel` to a handler list in selector order: it replaces the handler
/// with the same selector, or goes where the order puts it.
pub open spec fn add_sorted<H>(hs: Seq<(Seq<char>, H)>, sel: Seq<char>, h: H) -> Seq<(Seq<char>, H)> {
    let p = key_pos(keys_of(hs), sel) as int;
    if p < hs.len() && hs[p].0 == sel {
        hs.update(p, (sel, h))
    } else {
        hs.insert(p, (sel, h))
    }
}

/// The handler a handler list gives for `sel`: the first entry with that selector.
pub open spec fn lookup_sorted<H>(hs: Seq<(Seq<char>, H)>, sel: Seq<char>) -> Option<H>
    decreases hs.len(),
{
    if hs.len() == 0 {
        None
    } else if hs[0].0 == sel {
        Some(hs[0].1)
    } else {
        lookup_sorted(hs.drop_first(), sel)
    }
}

/// Selectors are strictly increasing (so each selector occurs at most once).
pub open spec fn keys_sorted(keys: Seq<Seq<char>>) -> bool {
    forall|i: int, j: int| 0 <= i < j < keys.len() ==> seq_lt(#[trigger] keys[i], #[trigger] keys[j])
}

/// The class view with a handler added.
pub open spec fn classv_add(c: ClassV, sel: Seq<char>, h: HandlerV) -> ClassV {
    ClassV { handlers: add_sorted(c.handlers, sel, h), ivals: c.ivals }
}

/// The empty class view.
pub open spec fn classv_empty() -> ClassV {
    ClassV { handlers: Seq::empty(), ivals: 0 }
}

/// The exec-level entry list viewed as (selector characters, handler) pairs.
pub open spec fn raw_keyed(hs: Seq<(Selector, Handler)>) -> Seq<(Seq<char>, Handler)> {
    hs.map_values(|e: (Selector, Handler)| (e.0@, e.1))
}

proof fn lemma_key_pos_bound(keys: Seq<Seq<char>>, sel: Seq<char>)
    ensures
        key_pos(keys, sel) <= keys.len(),
        forall|i: int| 0 <= i < key_pos(keys, sel) ==> seq_lt(#[trigger] keys[i], sel),
        key_pos(keys, sel) < keys.len() ==> !seq_lt(keys[key_pos(keys, sel) as int], sel),
    decreases keys.len(),
{
    if keys.len() > 0 && seq_lt(keys[0], sel) {
        lemma_key_pos_bound(keys.drop_first(), sel);
        assert forall|i: int| 0 <= i < key_pos(keys, sel) implies seq_lt(#[trigger] keys[i], sel) by {
            if i > 0 {
                assert(keys.drop_first()[i - 1] == keys[i]);
            }
        }
    }
}

/// Adding to a sorted list keeps it sorted, and afterwards `sel` finds the new handler
/// while every other selector finds what it found before.
proof fn lemma_add_sorted<H>(hs: Seq<(Seq<char>, H)>, sel: Seq<char>, h: H)
    requires
        keys_sorted(keys_of(hs)),
    ensures
        keys_sorted(keys_of(add_sorted(hs, sel, h))),
{
    let keys = keys_of(hs);
    let p = key_pos(keys, sel) as int;
    lemma_key_pos_bound(keys, sel);
    let r = add_sorted(hs, sel, h);
    let rk = keys_of(r);
    if p < hs.len() && hs[p].0 == sel {
        assert forall|i: int, j: int| 0 <= i < j < rk.len() implies seq_lt(#[trigger] rk[i], #[trigger] rk[j]) by {
            assert(rk[i] == keys[i]);
            assert(rk[j] == keys[j]);
        }
    } else {
        // every selector at or after p comes after sel
        assert forall|k: int| p <= k < keys.len() implies seq_lt(sel, #[trigger] keys[k]) by {
            lemma_seq_lt_total(keys[p], sel);
            if k > p {
                assert(seq_lt(keys[p], keys[k]));
                lemma_seq_lt_total(sel, keys[p]);
                if seq_lt(sel, keys[p]) {
                    lemma_seq_lt_transitive(sel, keys[p], keys[k]);
                }
            } else {
                assert(keys[p] != sel);
            }
        }
        assert forall|i: int, j: int| 0 <= i < j < rk.len() implies seq_lt(#[trigger] rk[i], #[trigger] rk[j]) by {
            if j < p {
                assert(rk[i] == keys[i] && rk[j] == keys[j]);
            } else if j == p {
                assert(rk[i] == keys[i] && rk[j] == sel);
            } else if i < p {
                assert(rk[i] == keys[i] && rk[j] == keys[j - 1]);
                assert(seq_lt(sel, keys[j - 1]));
                lemma_seq_lt_transitive(keys[i], sel, keys[j - 1]);
            } else if i == p {
                assert(rk[i] == sel && rk[j] == keys[j - 1]);
            } else {
                assert(rk[i] == keys[i - 1] && rk[j] == keys[j - 1]);
            }
        }
    }
}

proof fn lemma_raw_keyed_keys(hs: Seq<(Selector, Handler)>)
    ensures
        keys_of(raw_keyed(hs)) == keys_of(entries_view(hs)),
{
    lemma_entries_view(hs);
    assert(keys_of(raw_keyed(hs)) =~= keys_of(entries_view(hs)));
}

impl Class {
    #[verifier::type_invariant]
    spec fn sorted(self) -> bool {
        keys_sorted(keys_of(raw_keyed(self.handlers@)))
    }

    /// The handler entries in selector order.
    pub closed spec fn entries(self) -> Seq<(Selector, Handler)> {
        self.handlers@
    }

    /// The number of instance values its objects carry.
    pub closed spec fn ival_count(self) -> usize {
        self.ivals
    }

    /// The handler for `sel`, if any.
    pub open spec fn lookup(self, sel: Seq<char>) -> Option<Handler> {
        lookup_sorted(raw_keyed(self.entries()), sel)
    }

    pub fn new() -> (c: Self)
        ensures
            class_view(c) == classv_empty(),
            c.entries() == Seq::<(Selector, Handler)>::empty(),
            c.ival_count() == 0,
    {
        let c = Class { handlers: Vec::new(), ivals: 0 };
        proof {
            assert(entries_view(c.handlers@) =~= Seq::<(Seq<char>, HandlerV)>::empty());
        }
        c
    }

    /// Adds a handler; a handler already there for the same selector is replaced.
    pub fn add_handler(&mut self, selector: Selector, params: Vec<Param>, body: Vec<IR>)
        ensures
            class_view(*final(self)) == classv_add(
                class_view(*old(self)),
                selector@,
                HandlerV { params: params@, body: body_view(body@) },
            ),
            raw_keyed(final(self).entries()) == add_sorted(
                raw_keyed(old(self).entries()),
                selector@,
                Handler { params, body: Rc::new(body) },
            ),
            final(self).ival_count() == old(self).ival_count(),
    {
        proof {
            use_type_invariant(&*self);
        }
        let ghost old_hs = self.handlers@;
        let ghost keys = keys_of(raw_keyed(old_hs));
        let n = self.handlers.len();
        let mut p: usize = 0;
        assert(keys.skip(0) == keys);
        while p < n && string_lt(&self.handlers[p].0, &selector)
            invariant
                n == self.handlers@.len(),
                self.handlers@ == old_hs,
                keys == keys_of(raw_keyed(old_hs)),
                p <= n,
                key_pos(keys, selector@) == p + key_pos(keys.skip(p as int), selector@),
            decreases n - p,
        {
            assert(keys.skip(p as int)[0] == self.handlers@[p as int].0@);
            assert(keys.skip(p as int).drop_first() == keys.skip(p + 1));
            p = p + 1;
        }
        proof {
            if p < n {
                assert(keys.skip(p as int)[0] == old_hs[p as int].0@);
            }
            assert(key_pos(keys, selector@) == p);
        }
        let handler = Handler { params, body: Rc::new(body) };
        let ghost hv = HandlerV { params: handler.params@, body: body_view(handler.body@) };
        let ghost new_entry = (selector@, handler);
        proof {
            lemma_add_sorted(raw_keyed(old_hs), selector@, new_entry.1);
        }
        let mut hs: Vec<(Selector, Handler)> = Vec::new();
        std::mem::swap(&mut hs, &mut self.handlers);
        if p < n && string_eq(&hs[p].0, &selector) {
            let _ = hs.remove(p);
            hs.insert(p, (selector, handler));
            proof {
                assert(hs@ == old_hs.update(p as int, (selector, handler)));
                assert(raw_keyed(hs@) =~= add_sorted(raw_keyed(old_hs), selector@, handler));
            }
        } else {
            hs.insert(p, (selector, handler));
            proof {
                assert(raw_keyed(hs@) =~= add_sorted(raw_keyed(old_hs), selector@, handler));
            }
        }
        self.handlers = hs;
        proof {
            let hs = self.handlers@;
            lemma_entries_view(hs);
            lemma_entries_view(old_hs);
            lemma_raw_keyed_keys(old_hs);
            let ev = entries_view(old_hs);
            assert(key_pos(keys_of(ev), selector@) == p);
            assert(entries_view(hs) =~= add_sorted(ev, selector@, hv));
        }
    }

    /// A lookup right after an add gives the added handler; every other selector gives what
    /// it gave before. Holds of any handler list, sorted or not.
    pub proof fn law_get_after_add(c: Class, added: Class, sel: Seq<char>, h: Handler, other: Seq<char>)
        requires
            raw_keyed(added.entries()) == add_sorted(raw_keyed(c.entries()), sel, h),
        ensures
            added.lookup(sel) == Some(h),
            other != sel ==> added.lookup(other) == c.lookup(other),
    {
        crate::sorted::lemma_lookup_add_sorted(raw_keyed(c.entries()), sel, h, other);
    }

    /// Adds a handler given the selector as a string slice.
    pub fn add(&mut self, selector: &str, params: Vec<Param>, body: Vec<IR>)
        ensures
            class_view(*final(self)) == classv_add(
                class_view(*old(self)),
                selector@,
                HandlerV { params: params@, body: body_view(body@) },
            ),
            final(self).ival_count() == old(self).ival_count(),
    {
        let s = crate::text::string_from_str(selector);
        self.add_handler(s, params, body)
    }

    /// The handler for `selector`, or a does-not-understand error.
    pub fn get(&self, selector: &Selector) -> (r: Runtime<&Handler>)
        ensures
            match r {
                Ok(h) => self.lookup(selector@) == Some(*h),
                Err(e) => self.lookup(selector@) is None && e == RuntimeError::DoesNotUnderstand(
                    *selector,
                ),
            },
    {
        let n = self.handlers.len();
        let mut i: usize = 0;
        assert(raw_keyed(self.handlers@).skip(0) == raw_keyed(self.handlers@));
        while i < n
            invariant
                n == self.handlers@.len(),
                i <= n,
                self.lookup(selector@) == lookup_sorted(raw_keyed(self.handlers@).skip(i as int), selector@),
            decreases n - i,
        {
            let ghost rk = raw_keyed(self.handlers@);
            assert(rk.skip(i as int)[0] == (self.handlers@[i as int].0@, self.handlers@[i as int].1));
            if string_eq(&self.handlers[i].0, selector) {
                return Ok(&self.handlers[i].1);
            }
            assert(rk.skip(i as int).drop_first() == rk.skip(i + 1));
            i = i + 1;
        }
        Err(RuntimeError::DoesNotUnderstand(selector.clone()))
    }

    pub fn get_ivals(&self) -> (n: usize)
        ensures
            n == self.ival_count(),
            n == class_view(*self).ivals,
    {
        self.ivals
    }

    pub fn set_ivals(&mut self, count: usize)
        ensures
            class_view(*final(self)) == (ClassV { ivals: count as nat, ..class_view(*old(self)) }),
            final(self).entries() == old(self).entries(),
            final(self).ival_count() == count,
    {
        proof {
            use_type_invariant(&*self);
        }
        self.ivals = count
    }

    pub fn rc(self) -> (r: Rc<Class>)
        ensures
            *r == self,
    {
        Rc::new(self)
    }
}


// ---------------------------------------------------------------------------
// Views of runtime values and of the interpreter state
// ---------------------------------------------------------------------------
/// The view of a runtime value.
pub enum ValueV {
    Unit,
    Integer(i64),
    Object(Class, Seq<ValueV>),
    DoObject(Class, Seq<ValueV>, ParentFrameIndex),
    Pointer(Address),
}

/// The view of a runtime error.
pub enum RuntimeErrorV {
    DoesNotUnderstand(Seq<char>),
    StepLimitExceeded,
}

pub open spec fn value_view(v: Value) -> ValueV
    decreases v,
{
    match v {
        Value::Unit => ValueV::Unit,
        Value::Integer(i) => ValueV::Integer(i),
        Value::Object(c, iv) => ValueV::Object(*c, values_view(iv@)),
        Value::DoObject(c, iv, r) => ValueV::DoObject(*c, values_view(iv@), r),
        Value::Pointer(a) => ValueV::Pointer(a),
    }
}

pub open spec fn values_view(vs: Seq<Value>) -> Seq<ValueV>
    decreases vs,
{
    if vs.len() == 0 {
        Seq::empty()
    } else {
        seq![value_view(vs[0])] + values_view(vs.drop_first())
    }
}

pub proof fn lemma_values_view(vs: Seq<Value>)
    ensures
        values_view(vs).len() == vs.len(),
        forall|i: int| 0 <= i < vs.len() ==> #[trigger] values_view(vs)[i] == value_view(vs[i]),
    decreases vs.len(),
{
    if vs.len() > 0 {
        lemma_values_view(vs.drop_first());
        assert forall|i: int| 0 <= i < vs.len() implies #[trigger] values_view(vs)[i] == value_view(vs[i]) by {
            if i > 0 {
                assert(vs.drop_first()[i - 1] == vs[i]);
            }
        }
    }
}

pub proof fn lemma_values_view_ext(vs: Seq<Value>, ws: Seq<ValueV>)
    requires
        vs.len() == ws.len(),
        forall|i: int| 0 <= i < vs.len() ==> #[trigger] value_view(vs[i]) == ws[i],
    ensures
        values_view(vs) == ws,
{
    lemma_values_view(vs);
    assert(values_view(vs) =~= ws);
}

pub open spec fn runtime_error_view(e: RuntimeError) -> RuntimeErrorV {
    match e {
        RuntimeError::DoesNotUnderstand(s) => RuntimeErrorV::DoesNotUnderstand(s@),
        RuntimeError::StepLimitExceeded => RuntimeErrorV::StepLimitExceeded,
    }
}

pub open spec fn result_view(r: Runtime<Value>) -> Result<ValueV, RuntimeErrorV> {
    match r {
        Ok(v) => Ok(value_view(v)),
        Err(e) => Err(runtime_error_view(e)),
    }
}

/// A call frame: the code being run, the instruction pointer, and for handler frames
/// where its locals start, the instance values of its target, and the frame a `return`
/// unwinds to.
pub enum Frame {
    Root { body: Body, ip: usize },
    Handler {
        body: Body,
        ip: usize,
        local_offset: usize,
        ivals: Instance,
        return_from_index: usize,
    },
}

/// The view of a call frame.
pub enum FrameV {
    Root { body: Seq<IR>, ip: usize },
    Handler {
        body: Seq<IR>,
        ip: usize,
        local_offset: usize,
        ivals: Seq<ValueV>,
        return_from_index: usize,
    },
}

pub open spec fn frame_view(f: Frame) -> FrameV {
    match f {
        Frame::Root { body, ip } => FrameV::Root { body: body@, ip },
        Frame::Handler { body, ip, local_offset, ivals, return_from_index } => FrameV::Handler {
            body: body@,
            ip,
            local_offset,
            ivals: values_view(ivals@),
            return_from_index,
        },
    }
}

pub open spec fn frames_view(fs: Seq<Frame>) -> Seq<FrameV> {
    fs.map_values(|f: Frame| frame_view(f))
}

/// What the call stack yields next: an instruction to run, a return from a handler frame
/// (with the stack height its locals started at), or the end of the program.
pub enum NextResult {
    IR(IR),
    Return(usize),
    Done,
}

/// The state of a run: the value stack, the call frames, and whether a `return` is
/// pending.
pub struct State {
    pub stack: Seq<ValueV>,
    pub frames: Seq<FrameV>,
    pub returning: bool,
}

/// What one step of a run leads to.
pub enum Step {
    Continue(State),
    Finished(Result<ValueV, RuntimeErrorV>),
    /// Code that no compiler output contains (a cast of a non-integer, a send to a pointer,
    /// a deref of a non-pointer, ...): the machine stops here rather than go on.
    Fault,
}

/// What a bounded run leads to.
pub enum Outcome {
    Finished(Result<ValueV, RuntimeErrorV>),
    Fault,
    Exhausted,
}

pub open spec fn fv_local_offset(f: FrameV) -> usize {
    match f {
        FrameV::Root { .. } => 0,
        FrameV::Handler { local_offset, .. } => local_offset,
    }
}

pub open spec fn fv_return_from_index(f: FrameV) -> usize {
    match f {
        FrameV::Root { .. } => 0,
        FrameV::Handler { return_from_index, .. } => return_from_index,
    }
}

/// Advancing one frame: the next instruction and the frame with its pointer moved on, or
/// the end of the frame's code.
pub open spec fn fv_advance(f: FrameV) -> (FrameV, NextResult) {
    match f {
        FrameV::Root { body, ip } => if ip >= body.len() {
            (f, NextResult::Done)
        } else {
            (FrameV::Root { body, ip: (ip + 1) as usize }, NextResult::IR(body[ip as int]))
        },
        FrameV::Handler { body, ip, local_offset, ivals, return_from_index } => if ip >= body.len() {
            (f, NextResult::Return(local_offset))
        } else {
            (
                FrameV::Handler {
                    body,
                    ip: (ip + 1) as usize,
                    local_offset,
                    ivals,
                    return_from_index,
                },
                NextResult::IR(body[ip as int]),
            )
        },
    }
}

/// The call stack's next move: new frames, new pending-return flag, and what it yields;
/// `None` where the machine would panic.
pub open spec fn spec_next(frames: Seq<FrameV>, returning: bool) -> Option<(Seq<FrameV>, bool, NextResult)> {
    if frames.len() == 0 {
        None
    } else if returning {
        let r = fv_return_from_index(frames.last());
        if r == 0 {
            Some((frames, false, NextResult::Done))
        } else if r == usize::MAX {
            None
        } else {
            let kept = if r + 1 < frames.len() { frames.take(r + 1) } else { frames };
            Some((kept.drop_last(), false, NextResult::Return(fv_local_offset(kept.last()))))
        }
    } else {
        let (f2, res) = fv_advance(frames.last());
        match res {
            NextResult::Return(_) => Some((frames.drop_last(), false, res)),
            _ => Some((frames.drop_last().push(f2), false, res)),
        }
    }
}

/// Whether a selector is the integer addition selector `+:`.
pub open spec fn is_add(sel: Seq<char>) -> bool {
    sel == seq!['+', ':']
}

/// Sending `sel` to `target` (already popped): the new stack and frames, an error, or
/// `None` where the machine would panic.
pub open spec fn spec_send(
    target: ValueV,
    sel: Seq<char>,
    stack: Seq<ValueV>,
    frames: Seq<FrameV>,
) -> Option<Result<(Seq<ValueV>, Seq<FrameV>), RuntimeErrorV>> {
    match target {
        ValueV::Unit => Some(Err(RuntimeErrorV::DoesNotUnderstand(sel))),
        ValueV::Integer(a) => if is_add(sel) {
            if stack.len() == 0 {
                None
            } else {
                match stack.last() {
                    ValueV::Integer(b) => if i64::MIN <= a + b <= i64::MAX {
                        Some(Ok((stack.drop_last().push(ValueV::Integer((a + b) as i64)), frames)))
                    } else {
                        None
                    },
                    _ => None,
                }
            }
        } else {
            Some(Err(RuntimeErrorV::DoesNotUnderstand(sel)))
        },
        ValueV::Object(class, ivals) => match class.lookup(sel) {
            None => Some(Err(RuntimeErrorV::DoesNotUnderstand(sel))),
            Some(h) => if h.params.len() > stack.len() {
                None
            } else {
                Some(
                    Ok(
                        (
                            stack,
                            frames.push(
                                FrameV::Handler {
                                    body: h.body@,
                                    ip: 0,
                                    local_offset: (stack.len() - h.params.len()) as usize,
                                    ivals,
                                    return_from_index: frames.len() as usize,
                                },
                            ),
                        ),
                    ),
                )
            },
        },
        ValueV::DoObject(class, ivals, r) => match class.lookup(sel) {
            None => Some(Err(RuntimeErrorV::DoesNotUnderstand(sel))),
            Some(h) => if h.params.len() > stack.len() {
                None
            } else {
                Some(
                    Ok(
                        (
                            stack,
                            frames.push(
                                FrameV::Handler {
                                    body: h.body@,
                                    ip: 0,
                                    local_offset: (stack.len() - h.params.len()) as usize,
                                    ivals,
                                    return_from_index: r,
                                },
                            ),
                        ),
                    ),
                )
            },
        },
        ValueV::Pointer(_) => None,
    }
}

/// Running one instruction on a state.
pub open spec fn spec_eval(ir: IR, s: State) -> Option<Result<State, RuntimeErrorV>> {
    let stack = s.stack;
    let frames = s.frames;
    if frames.len() == 0 {
        None
    } else {
        let top = frames.last();
        let lo = fv_local_offset(top);
        match ir {
            IR::Unit => Some(Ok(State { stack: stack.push(ValueV::Unit), ..s })),
            IR::Integer(v) => Some(Ok(State { stack: stack.push(ValueV::Integer(v)), ..s })),
            IR::Local(a) => if a + lo >= stack.len() {
                None
            } else {
                Some(Ok(State { stack: stack.push(stack[a + lo]), ..s }))
            },
            IR::IVal(i) => match top {
                FrameV::Root { .. } => None,
                FrameV::Handler { ivals, .. } => if i >= ivals.len() {
                    None
                } else {
                    Some(Ok(State { stack: stack.push(ivals[i as int]), ..s }))
                },
            },
            IR::Var(a) => if a + lo > usize::MAX {
                None
            } else {
                Some(Ok(State { stack: stack.push(ValueV::Pointer((a + lo) as usize)), ..s }))
            },
            IR::Object(c) => {
                let n = c.ival_count();
                if n > stack.len() {
                    None
                } else {
                    let k = stack.len() - n;
                    Some(
                        Ok(
                            State {
                                stack: stack.take(k).push(ValueV::Object(*c, stack.skip(k))),
                                ..s
                            },
                        ),
                    )
                }
            },
            IR::DoObject(c) => {
                let n = c.ival_count();
                if n > stack.len() {
                    None
                } else {
                    let k = stack.len() - n;
                    Some(
                        Ok(
                            State {
                                stack: stack.take(k).push(
                                    ValueV::DoObject(*c, stack.skip(k), fv_return_from_index(top)),
                                ),
                                ..s
                            },
                        ),
                    )
                }
            },
            IR::Deref => if stack.len() == 0 {
                None
            } else {
                let rest = stack.drop_last();
                match stack.last() {
                    ValueV::Pointer(a) => if a >= rest.len() {
                        None
                    } else {
                        Some(Ok(State { stack: rest.push(rest[a as int]), ..s }))
                    },
                    _ => None,
                }
            },
            IR::SetVar => if stack.len() < 2 {
                None
            } else {
                let value = stack[stack.len() - 2];
                let rest = stack.take(stack.len() - 2);
                match stack.last() {
                    ValueV::Pointer(a) => if a >= rest.len() {
                        None
                    } else {
                        Some(Ok(State { stack: rest.update(a as int, value), ..s }))
                    },
                    _ => None,
                }
            },
            IR::Send(sel) => if stack.len() == 0 {
                None
            } else {
                match spec_send(stack.last(), sel@, stack.drop_last(), frames) {
                    None => None,
                    Some(Err(e)) => Some(Err(e)),
                    Some(Ok((st, fr))) => Some(Ok(State { stack: st, frames: fr, returning: s.returning })),
                }
            },
            IR::Drop => if stack.len() == 0 {
                None
            } else {
                Some(Ok(State { stack: stack.drop_last(), ..s }))
            },
            IR::Return => Some(Ok(State { returning: true, ..s })),
        }
    }
}

/// One step of a run.
pub open spec fn spec_step(s: State) -> Step {
    match spec_next(s.frames, s.returning) {
        None => Step::Fault,
        Some((fr, rt, res)) => match res {
            NextResult::IR(ir) => match spec_eval(ir, State { stack: s.stack, frames: fr, returning: rt }) {
                None => Step::Fault,
                Some(Ok(s2)) => Step::Continue(s2),
                Some(Err(e)) => Step::Finished(Err(e)),
            },
            NextResult::Return(off) => if s.stack.len() == 0 {
                Step::Fault
            } else {
                let v = s.stack.last();
                let rest = s.stack.drop_last();
                let kept = if off < rest.len() { rest.take(off as int) } else { rest };
                Step::Continue(State { stack: kept.push(v), frames: fr, returning: rt })
            },
            NextResult::Done => if s.stack.len() == 0 {
                Step::Fault
            } else {
                Step::Finished(Ok(s.stack.last()))
            },
        },
    }
}

/// Running up to `fuel` steps.
pub open spec fn spec_run(s: State, fuel: nat) -> Outcome
    decreases fuel,
{
    if fuel == 0 {
        Outcome::Exhausted
    } else {
        match spec_step(s) {
            Step::Fault => Outcome::Fault,
            Step::Finished(r) => Outcome::Finished(r),
            Step::Continue(s2) => spec_run(s2, (fuel - 1) as nat),
        }
    }
}

/// Once a run has finished (or faulted) within some number of steps, allowing more steps
/// changes nothing: the step limit only decides whether a run is cut off.
pub proof fn law_run_more_steps(s: State, n: nat, m: nat)
    requires
        n <= m,
        !(spec_run(s, n) is Exhausted),
    ensures
        spec_run(s, m) == spec_run(s, n),
    decreases n,
{
    if n > 0 {
        if let Step::Continue(s2) = spec_step(s) {
            law_run_more_steps(s2, (n - 1) as nat, (m - 1) as nat);
        }
    }
}

/// A variable slot reads back what was last written to it: after `value pointer SetVar`
/// the slot the pointer names holds `value` and every other slot is unchanged, and
/// `pointer Deref` then pushes `value`.
pub proof fn law_set_then_deref(s: State, value: ValueV, p: usize)
    requires
        s.frames.len() >= 1,
        p < s.stack.len(),
    ensures
        spec_eval(IR::SetVar, State { stack: s.stack.push(value).push(ValueV::Pointer(p)), ..s })
            == Some(Ok::<State, RuntimeErrorV>(State { stack: s.stack.update(p as int, value), ..s })),
        forall|q: int| 0 <= q < s.stack.len() && q != p ==> #[trigger] s.stack.update(p as int, value)[q] == s.stack[q],
        spec_eval(IR::Deref, State { stack: s.stack.update(p as int, value).push(ValueV::Pointer(p)), ..s })
            == Some(Ok::<State, RuntimeErrorV>(State { stack: s.stack.update(p as int, value).push(value), ..s })),
{
    let st = s.stack.push(value).push(ValueV::Pointer(p));
    assert(st.take(st.len() - 2) =~= s.stack);
    assert(st[st.len() - 2] == value);
    let w = s.stack.update(p as int, value).push(ValueV::Pointer(p));
    assert(w.drop_last() =~= s.stack.update(p as int, value));
}

/// Reading a local directly and through a pointer agree: `Local(a)` pushes what
/// `Var(a)` followed by `Deref` pushes.
pub proof fn law_local_is_var_deref(s: State, a: usize)
    requires
        s.frames.len() >= 1,
        a + fv_local_offset(s.frames.last()) < s.stack.len() <= usize::MAX,
    ensures
        spec_eval(IR::Var(a), s) matches Some(Ok(s1))
            && spec_eval(IR::Deref, s1) == spec_eval(IR::Local(a), s),
{
    let lo = fv_local_offset(s.frames.last());
    let s1 = State { stack: s.stack.push(ValueV::Pointer((a + lo) as usize)), ..s };
    assert(s1.stack.drop_last() =~= s.stack);
}

/// Integer addition by `+:` does not depend on which operand is the target: sending `+:`
/// to `a` with `b` below it leaves what sending it to `b` with `a` below leaves, the sum in
/// place of the argument.
pub proof fn law_integer_add_commutes(rest: Seq<ValueV>, frames: Seq<FrameV>, a: i64, b: i64)
    requires
        i64::MIN <= a + b <= i64::MAX,
    ensures
        spec_send(ValueV::Integer(a), seq!['+', ':'], rest.push(ValueV::Integer(b)), frames)
            == spec_send(ValueV::Integer(b), seq!['+', ':'], rest.push(ValueV::Integer(a)), frames),
        spec_send(ValueV::Integer(a), seq!['+', ':'], rest.push(ValueV::Integer(b)), frames)
            == Some(Ok::<(Seq<ValueV>, Seq<FrameV>), RuntimeErrorV>((rest.push(ValueV::Integer((a + b) as i64)), frames))),
{
    assert(rest.push(ValueV::Integer(b)).drop_last() =~= rest);
    assert(rest.push(ValueV::Integer(a)).drop_last() =~= rest);
}

/// A send to an object with a handler for the selector keeps the sender's frames (its
/// pointer past the send), pops the target, and pushes one frame for the handler, which
/// records the sender's depth as the frame its `return` goes back to.
pub proof fn law_send_pushes_returning_frame(s: State, sel: Selector, class: Class, ivals: Seq<ValueV>, h: Handler)
    requires
        !s.returning,
        1 <= s.frames.len() < usize::MAX,
        fv_advance(s.frames.last()).1 == NextResult::IR(IR::Send(sel)),
        s.stack.len() >= 1,
        s.stack.last() == ValueV::Object(class, ivals),
        class.lookup(sel@) == Some(h),
        h.params@.len() < s.stack.len(),
    ensures
        spec_step(s) matches Step::Continue(s1) && {
            &&& s1.frames.len() == s.frames.len() + 1
            &&& s1.frames.drop_last() == s.frames.drop_last().push(fv_advance(s.frames.last()).0)
            &&& s1.frames.last() is Handler
            &&& fv_return_from_index(s1.frames.last()) == s.frames.len()
            &&& s1.stack == s.stack.drop_last()
            &&& !s1.returning
        },
{
    let back = s.frames.drop_last().push(fv_advance(s.frames.last()).0);
    assert(spec_next(s.frames, false) == Some((back, false, NextResult::IR(IR::Send(sel)))));
    if let Step::Continue(s1) = spec_step(s) {
        assert(s1.frames.drop_last() =~= back);
    }
}

/// A pending return in a handler frame whose return goes back to the frame below it (the
/// frame a send to an object pushes) removes exactly that frame: the run goes on in the
/// frame below, no longer returning, with the returned value on top of the stack.
pub proof fn law_return_pops_one_frame(s: State)
    requires
        s.returning,
        2 <= s.frames.len() <= usize::MAX,
        s.frames.last() is Handler,
        fv_return_from_index(s.frames.last()) == s.frames.len() - 1,
        s.stack.len() >= 1,
    ensures
        spec_step(s) matches Step::Continue(s2) && {
            &&& s2.frames == s.frames.drop_last()
            &&& !s2.returning
            &&& s2.stack.len() >= 1
            &&& s2.stack.last() == s.stack.last()
        },
{
}

/// A pending return goes back past the frame its top frame names: where the top frame
/// returns to the frame at depth `r` below other frames (a do-block's handler returns to
/// the handler that made the block), that frame and every frame above it are removed at
/// once, and the run goes on in the frame below it with the returned value on top.
pub proof fn law_return_unwinds_to_named_frame(s: State, r: int)
    requires
        s.returning,
        1 <= r,
        r + 1 <= s.frames.len() <= usize::MAX,
        fv_return_from_index(s.frames.last()) == r,
        s.stack.len() >= 1,
    ensures
        spec_step(s) matches Step::Continue(s2) && {
            &&& s2.frames == s.frames.take(r)
            &&& !s2.returning
            &&& s2.stack.len() >= 1
            &&& s2.stack.last() == s.stack.last()
        },
{
    let kept = if r + 1 < s.frames.len() { s.frames.take(r + 1) } else { s.frames };
    assert(kept.drop_last() =~= s.frames.take(r));
}

/// A do-block returns where the frame that made it returns: the do-object built in a
/// frame carries that frame's return depth, and a send to it pushes a handler frame that
/// returns to the same depth.
pub proof fn law_do_block_returns_with_maker(
    s: State,
    c: Rc<Class>,
    sel: Seq<char>,
    stack2: Seq<ValueV>,
    frames2: Seq<FrameV>,
    h: Handler,
)
    requires
        s.frames.len() >= 1,
        c.ival_count() <= s.stack.len(),
        (*c).lookup(sel) == Some(h),
        h.params@.len() <= stack2.len(),
    ensures
        spec_eval(IR::DoObject(c), s) matches Some(Ok(s1)) && {
            &&& s1.stack.len() >= 1
            &&& spec_send(s1.stack.last(), sel, stack2, frames2) matches Some(Ok((_, fr)))
            &&& fr.len() == frames2.len() + 1
            &&& fr.drop_last() == frames2
            &&& fr.last() is Handler
            &&& fv_return_from_index(fr.last()) == fv_return_from_index(s.frames.last())
        },
{
    let s1 = spec_eval(IR::DoObject(c), s)->Some_0->Ok_0;
    let iv = s1.stack.last()->DoObject_1;
    assert(s1.stack.last() matches ValueV::DoObject(_, _, r) && r == fv_return_from_index(s.frames.last()));
    let fr = frames2.push(
        FrameV::Handler {
            body: h.body@,
            ip: 0,
            local_offset: (stack2.len() - h.params@.len()) as usize,
            ivals: iv,
            return_from_index: fv_return_from_index(s.frames.last()),
        },
    );
    assert(fr.drop_last() =~= frames2);
}

/// A `return` inside a handler that a send to an object started returns from that handler
/// only. Take a frame whose next instruction sends `sel` to an object on top of the stack,
/// whose class has a handler for `sel` that pushes an integer `v` and returns: four steps
/// later the run is back in the sending frame (its pointer past the send), with the
/// handler's arguments and target gone from the stack and `v` on top, and from there it
/// goes on exactly as a run from that state does, so the program's result is what the
/// sender computes after the send.
pub proof fn law_return_leaves_only_the_handler(
    caller: Seq<FrameV>,
    stack: Seq<ValueV>,
    sel: Selector,
    class: Class,
    ivals: Seq<ValueV>,
    h: Handler,
    v: i64,
    n: nat,
)
    requires
        1 <= caller.len() < usize::MAX,
        fv_advance(caller.last()).1 == NextResult::IR(IR::Send(sel)),
        1 <= stack.len() <= usize::MAX,
        stack.last() == ValueV::Object(class, ivals),
        class.lookup(sel@) == Some(h),
        h.params@.len() < stack.len(),
        h.body@.len() >= 2,
        h.body@[0] == IR::Integer(v),
        h.body@[1] == IR::Return,
    ensures
        ({
            let back = caller.drop_last().push(fv_advance(caller.last()).0);
            let args = stack.drop_last();
            let kept = args.take(args.len() - h.params@.len());
            spec_run(State { stack, frames: caller, returning: false }, n + 4) == spec_run(
                State { stack: kept.push(ValueV::Integer(v)), frames: back, returning: false },
                n,
            )
        }),
{
    let back = caller.drop_last().push(fv_advance(caller.last()).0);
    let args = stack.drop_last();
    let off = (args.len() - h.params@.len()) as usize;
    let kept = args.take(off as int);
    let body = h.body@;
    let hf = |ip: usize|
        FrameV::Handler {
            body,
            ip,
            local_offset: off,
            ivals,
            return_from_index: back.len() as usize,
        };
    let s0 = State { stack, frames: caller, returning: false };
    // The send pushes a handler frame that returns to the sender's depth.
    assert(spec_next(caller, false) == Some((back, false, NextResult::IR(IR::Send(sel)))));
    let s1 = State { stack: args, frames: back.push(hf(0)), returning: false };
    assert(spec_step(s0) == Step::Continue(s1));
    // The handler pushes `v`.
    assert(fv_advance(hf(0)) == (hf(1), NextResult::IR(IR::Integer(v))));
    assert(back.push(hf(0)).drop_last() =~= back);
    let s2 = State { stack: args.push(ValueV::Integer(v)), frames: back.push(hf(1)), returning: false };
    assert(spec_step(s1) == Step::Continue(s2));
    // The handler returns.
    assert(fv_advance(hf(1)) == (hf(2), NextResult::IR(IR::Return)));
    assert(back.push(hf(1)).drop_last() =~= back);
    let s3 = State { stack: args.push(ValueV::Integer(v)), frames: back.push(hf(2)), returning: true };
    assert(spec_step(s2) == Step::Continue(s3));
    // The pending return unwinds the handler frame alone.
    assert(back.push(hf(2)).drop_last() =~= back);
    assert(spec_next(back.push(hf(2)), true) == Some((back, false, NextResult::Return(off))));
    assert(args.push(ValueV::Integer(v)).drop_last() =~= args);
    if off >= args.len() {
        assert(kept =~= args);
    }
    let s4 = State { stack: kept.push(ValueV::Integer(v)), frames: back, returning: false };
    assert(spec_step(s3) == Step::Continue(s4));
    assert(spec_run(s0, n + 4) == spec_run(s1, n + 3));
    assert(spec_run(s1, n + 3) == spec_run(s2, n + 2));
    assert(spec_run(s2, n + 2) == spec_run(s3, n + 1));
    assert(spec_run(s3, n + 1) == spec_run(s4, n));
}

/// The state a program starts in: an empty stack and one root frame at its first
/// instruction.
pub open spec fn initial_state(code: Seq<IR>) -> State {
    State { stack: Seq::empty(), frames: seq![FrameV::Root { body: code, ip: 0 }], returning: false }
}

/// The most steps `Interpreter::program` runs.
pub const STEP_LIMIT: u64 = 0xffff_ffff_ffff_ffff;

/// What running a program gives: its value or error, where the run finishes within the
/// step limit; `StepLimitExceeded` where it does not; `None` where the machine would panic.
pub open spec fn spec_program(code: Seq<IR>) -> Option<Result<ValueV, RuntimeErrorV>> {
    match spec_run(initial_state(code), STEP_LIMIT as nat) {
        Outcome::Finished(r) => Some(r),
        Outcome::Exhausted => Some(Err(RuntimeErrorV::StepLimitExceeded)),
        Outcome::Fault => None,
    }
}


// ---------------------------------------------------------------------------
// The machine
// ---------------------------------------------------------------------------
impl Value {
    fn as_int(self) -> (r: i64)
        requires
            self is Integer,
        ensures
            self == Value::Integer(r),
    {
        match self {
            Value::Integer(val) => val,
            _ => vstd::pervasive::unreached(),
        }
    }

    fn primitive_add(self, arg: Value) -> (r: Value)
        requires
            self is Integer,
            arg is Integer,
            i64::MIN <= self->Integer_0 + arg->Integer_0 <= i64::MAX,
        ensures
            r == Value::Integer((self->Integer_0 + arg->Integer_0) as i64),
    {
        Value::Integer(self.as_int() + arg.as_int())
    }

    fn send(self, selector: &Selector, stack: &mut Stack, call_stack: &mut CallStack) -> (r: Runtime<()>)
        requires
            spec_send(value_view(self), selector@, old(stack)@, old(call_stack).frames_v()) is Some,
        ensures
            final(call_stack).returning_v() == old(call_stack).returning_v(),
            match spec_send(value_view(self), selector@, old(stack)@, old(call_stack).frames_v()).unwrap() {
                Ok((st, fr)) => r is Ok && final(stack)@ == st && final(call_stack).frames_v() == fr,
                Err(e) => r matches Err(e2) && runtime_error_view(e2) == e,
            },
    {
        match self {
            Value::Unit => Err(RuntimeError::DoesNotUnderstand(selector.clone())),
            Value::Integer(_) => {
                if is_add_selector(selector) {
                    let arg = stack.pop();
                    let result = self.primitive_add(arg);
                    stack.push(result);
                    Ok(())
                } else {
                    Err(RuntimeError::DoesNotUnderstand(selector.clone()))
                }
            },
            Value::Object(class, ivals) => {
                let handler = class.get(selector)?;
                let local_offset = stack.size();
                call_stack.call(handler, local_offset, ivals);
                Ok(())
            },
            Value::DoObject(class, ivals, return_from_index) => {
                let handler = class.get(selector)?;
                let local_offset = stack.size();
                call_stack.call_do(handler, local_offset, ivals, return_from_index);
                Ok(())
            },
            Value::Pointer(_) => vstd::pervasive::unreached(),
        }
    }

    fn deref(self, stack: &Stack) -> (r: Value)
        requires
            self matches Value::Pointer(a) && a < stack@.len(),
        ensures
            value_view(r) == stack@[self->Pointer_0 as int],
    {
        match self {
            Value::Pointer(address) => stack.get(address),
            _ => vstd::pervasive::unreached(),
        }
    }

    fn set(self, value: Value, stack: &mut Stack)
        requires
            self matches Value::Pointer(a) && a < old(stack)@.len(),
        ensures
            final(stack)@ == old(stack)@.update(self->Pointer_0 as int, value_view(value)),
    {
        match self {
            Value::Pointer(address) => stack.set(address, value),
            _ => vstd::pervasive::unreached(),
        }
    }
}

/// Whether a selector is `+:`.
fn is_add_selector(sel: &Selector) -> (r: bool)
    ensures
        r == is_add(sel@),
{
    let s = sel.as_str();
    if s.unicode_len() != 2 {
        return false;
    }
    let a = s.get_char(0);
    let b = s.get_char(1);
    let r = a == '+' && b == ':';
    proof {
        if r {
            assert(sel@ =~= seq!['+', ':']);
        }
    }
    r
}

/// The value stack.
pub struct Stack {
    stack: Vec<Value>,
}

impl View for Stack {
    type V = Seq<ValueV>;

    closed spec fn view(&self) -> Seq<ValueV> {
        values_view(self.stack@)
    }
}

impl Stack {
    fn new() -> (s: Self)
        ensures
            s@ == Seq::<ValueV>::empty(),
    {
        let s = Stack { stack: Vec::new() };
        proof {
            lemma_values_view(s.stack@);
        }
        s
    }

    fn pop(&mut self) -> (v: Value)
        requires
            old(self)@.len() > 0,
        ensures
            value_view(v) == old(self)@.last(),
            final(self)@ == old(self)@.drop_last(),
    {
        proof {
            lemma_values_view(self.stack@);
        }
        let ghost old_stack = self.stack@;
        let v = self.stack.pop().unwrap();
        proof {
            lemma_values_view(self.stack@);
            lemma_values_view_ext(self.stack@, values_view(old_stack).drop_last());
        }
        v
    }

    fn push(&mut self, value: Value)
        ensures
            final(self)@ == old(self)@.push(value_view(value)),
    {
        let ghost old_stack = self.stack@;
        self.stack.push(value);
        proof {
            lemma_values_view(old_stack);
            lemma_values_view(self.stack@);
            lemma_values_view_ext(self.stack@, values_view(old_stack).push(value_view(value)));
        }
    }

    fn get(&self, index: Address) -> (v: Value)
        requires
            index < self@.len(),
        ensures
            value_view(v) == self@[index as int],
    {
        proof {
            lemma_values_view(self.stack@);
        }
        self.stack[index].clone()
    }

    fn set(&mut self, index: Address, value: Value)
        requires
            index < old(self)@.len(),
        ensures
            final(self)@ == old(self)@.update(index as int, value_view(value)),
    {
        let ghost old_stack = self.stack@;
        proof {
            lemma_values_view(old_stack);
        }
        self.stack.set(index, value);
        proof {
            lemma_values_view(self.stack@);
            lemma_values_view_ext(self.stack@, values_view(old_stack).update(index as int, value_view(value)));
        }
    }

    fn size(&self) -> (n: usize)
        ensures
            n == self@.len(),
    {
        proof {
            lemma_values_view(self.stack@);
        }
        self.stack.len()
    }

    fn truncate(&mut self, offset: usize)
        ensures
            final(self)@ == if offset < old(self)@.len() { old(self)@.take(offset as int) } else { old(self)@ },
    {
        let ghost old_stack = self.stack@;
        proof {
            lemma_values_view(old_stack);
        }
        self.stack.truncate(offset);
        proof {
            lemma_values_view(self.stack@);
            if offset < old_stack.len() {
                lemma_values_view_ext(self.stack@, values_view(old_stack).take(offset as int));
            } else {
                assert(self.stack@ == old_stack);
            }
        }
    }

    fn take(&mut self, count: usize) -> (r: Vec<Value>)
        requires
            count <= old(self)@.len(),
        ensures
            values_view(r@) == old(self)@.skip(old(self)@.len() - count),
            final(self)@ == old(self)@.take(old(self)@.len() - count),
    {
        let ghost old_stack = self.stack@;
        proof {
            lemma_values_view(old_stack);
        }
        let n = self.stack.len();
        let r = self.stack.split_off(n - count);
        proof {
            lemma_values_view(self.stack@);
            lemma_values_view(r@);
            lemma_values_view_ext(self.stack@, values_view(old_stack).take(n - count));
            lemma_values_view_ext(r@, values_view(old_stack).skip(n - count));
        }
        r
    }
}

impl Frame {
    fn root(code: Vec<IR>) -> (f: Self)
        ensures
            frame_view(f) == (FrameV::Root { body: code@, ip: 0 }),
    {
        Frame::Root { body: Rc::new(code), ip: 0 }
    }

    fn local_offset(&self) -> (r: usize)
        ensures
            r == fv_local_offset(frame_view(*self)),
    {
        match self {
            Frame::Root { .. } => 0,
            Frame::Handler { local_offset, .. } => *local_offset,
        }
    }

    fn ival(&self, index: usize) -> (v: Value)
        requires
            frame_view(*self) matches FrameV::Handler { ivals, .. } && index < ivals.len(),
        ensures
            frame_view(*self) matches FrameV::Handler { ivals, .. } && value_view(v) == ivals[index as int],
    {
        match self {
            Frame::Root { .. } => vstd::pervasive::unreached(),
            Frame::Handler { ivals, .. } => {
                proof {
                    lemma_values_view(ivals@);
                }
                ivals[index].clone()
            },
        }
    }

    /// The next instruction of this frame (and the frame moved past it), or the end of
    /// its code.
    fn next(self) -> (r: (Frame, NextResult))
        ensures
            (frame_view(r.0), r.1) == fv_advance(frame_view(self)),
    {
        match self {
            Frame::Root { body, ip } => {
                if ip >= body.len() {
                    return (Frame::Root { body, ip }, NextResult::Done);
                }
                let res = NextResult::IR(body[ip].clone());
                (Frame::Root { body, ip: ip + 1 }, res)
            },
            Frame::Handler { body, ip, local_offset, ivals, return_from_index } => {
                if ip >= body.len() {
                    return (
                        Frame::Handler { body, ip, local_offset, ivals, return_from_index },
                        NextResult::Return(local_offset),
                    );
                }
                let res = NextResult::IR(body[ip].clone());
                (Frame::Handler { body, ip: ip + 1, local_offset, ivals, return_from_index }, res)
            },
        }
    }

    fn return_from_index(&self) -> (r: usize)
        ensures
            r == fv_return_from_index(frame_view(*self)),
    {
        match self {
            Frame::Root { .. } => 0,
            Frame::Handler { return_from_index, .. } => *return_from_index,
        }
    }
}

enum NextState {
    Init,
    Return,
}

/// The call frames and the pending-return flag.
pub struct CallStack {
    frames: Vec<Frame>,
    next_state: NextState,
}

impl CallStack {
    pub closed spec fn frames_v(&self) -> Seq<FrameV> {
        frames_view(self.frames@)
    }

    pub closed spec fn returning_v(&self) -> bool {
        self.next_state is Return
    }

    fn root(code: Vec<IR>) -> (c: Self)
        ensures
            c.frames_v() == seq![FrameV::Root { body: code@, ip: 0 }],
            !c.returning_v(),
    {
        let f = Frame::root(code);
        let c = CallStack { frames: vec![f], next_state: NextState::Init };
        proof {
            assert(frames_view(c.frames@) =~= seq![FrameV::Root { body: code@, ip: 0 }]);
        }
        c
    }

    fn next(&mut self) -> (r: NextResult)
        requires
            spec_next(old(self).frames_v(), old(self).returning_v()) is Some,
        ensures
            spec_next(old(self).frames_v(), old(self).returning_v()) == Some(
                (final(self).frames_v(), final(self).returning_v(), r),
            ),
    {
        let ghost fv = self.frames_v();
        if let NextState::Return = self.next_state {
            self.next_state = NextState::Init;
            let return_from_index = self.return_from_index();
            if return_from_index == 0 {
                return NextResult::Done;
            }
            self.frames.truncate(return_from_index + 1);
            let last_frame = self.frames.pop().unwrap();
            let offset = last_frame.local_offset();
            proof {
                let kept = if return_from_index + 1 < fv.len() { fv.take(return_from_index + 1) } else { fv };
                assert(frames_view(self.frames@) =~= kept.drop_last());
            }
            return NextResult::Return(offset);
        }
        let frame = self.frames.pop().unwrap();
        let (frame2, res) = frame.next();
        match res {
            NextResult::Return(_) => {},
            _ => {
                self.frames.push(frame2);
            },
        }
        proof {
            assert(frames_view(self.frames@) =~= match res {
                NextResult::Return(_) => fv.drop_last(),
                _ => fv.drop_last().push(frame_view(frame2)),
            });
        }
        res
    }

    fn local_offset(&self) -> (r: usize)
        requires
            self.frames_v().len() > 0,
        ensures
            r == fv_local_offset(self.frames_v().last()),
    {
        self.frames[self.frames.len() - 1].local_offset()
    }

    fn call(&mut self, handler: &Handler, local_offset: usize, ivals: Instance)
        requires
            handler.params@.len() <= local_offset,
        ensures
            final(self).returning_v() == old(self).returning_v(),
            final(self).frames_v() == old(self).frames_v().push(
                FrameV::Handler {
                    body: handler.body@,
                    ip: 0,
                    local_offset: (local_offset - handler.params@.len()) as usize,
                    ivals: values_view(ivals@),
                    return_from_index: old(self).frames_v().len() as usize,
                },
            ),
    {
        let return_from_index = self.frames.len();
        self.frames.push(
            Frame::Handler {
                body: rc_clone(&handler.body),
                ip: 0,
                local_offset: local_offset - handler.params.len(),
                ivals,
                return_from_index,
            },
        );
        proof {
            assert(frames_view(self.frames@) =~= frames_view(old(self).frames@).push(
                frame_view(self.frames@.last()),
            ));
        }
    }

    fn call_do(&mut self, handler: &Handler, local_offset: usize, ivals: Instance, return_from_index: usize)
        requires
            handler.params@.len() <= local_offset,
        ensures
            final(self).returning_v() == old(self).returning_v(),
            final(self).frames_v() == old(self).frames_v().push(
                FrameV::Handler {
                    body: handler.body@,
                    ip: 0,
                    local_offset: (local_offset - handler.params@.len()) as usize,
                    ivals: values_view(ivals@),
                    return_from_index,
                },
            ),
    {
        self.frames.push(
            Frame::Handler {
                body: rc_clone(&handler.body),
                ip: 0,
                local_offset: local_offset - handler.params.len(),
                ivals,
                return_from_index,
            },
        );
        proof {
            assert(frames_view(self.frames@) =~= frames_view(old(self).frames@).push(
                frame_view(self.frames@.last()),
            ));
        }
    }

    fn ival(&self, index: usize) -> (v: Value)
        requires
            self.frames_v().len() > 0,
            self.frames_v().last() matches FrameV::Handler { ivals, .. } && index < ivals.len(),
        ensures
            self.frames_v().last() matches FrameV::Handler { ivals, .. } && value_view(v) == ivals[index as int],
    {
        self.frames[self.frames.len() - 1].ival(index)
    }

    fn return_from_index(&self) -> (r: usize)
        requires
            self.frames_v().len() > 0,
        ensures
            r == fv_return_from_index(self.frames_v().last()),
    {
        self.frames[self.frames.len() - 1].return_from_index()
    }

    fn do_return(&mut self)
        ensures
            final(self).returning_v(),
            final(self).frames_v() == old(self).frames_v(),
    {
        self.next_state = NextState::Return
    }
}


/// The stack machine.
pub struct Interpreter {
    stack: Stack,
    call_stack: CallStack,
}

impl Interpreter {
    pub closed spec fn state(&self) -> State {
        State {
            stack: self.stack@,
            frames: self.call_stack.frames_v(),
            returning: self.call_stack.returning_v(),
        }
    }

    /// Runs a program to its end and returns the value it leaves, or the error it stops
    /// with. Runs at most `STEP_LIMIT` steps.
    pub fn program(code: Vec<IR>) -> (r: Runtime<Value>)
        requires
            spec_program(code@) is Some,
        ensures
            Some(result_view(r)) == spec_program(code@),
    {
        let mut interpreter = Interpreter { stack: Stack::new(), call_stack: CallStack::root(code) };
        proof {
            assert(interpreter.state() == initial_state(code@));
        }
        interpreter.run(STEP_LIMIT)
    }

    fn run(&mut self, fuel: u64) -> (r: Runtime<Value>)
        requires
            !(spec_run(old(self).state(), fuel as nat) is Fault),
        ensures
            match spec_run(old(self).state(), fuel as nat) {
                Outcome::Finished(res) => result_view(r) == res,
                Outcome::Exhausted => r == Err::<Value, RuntimeError>(RuntimeError::StepLimitExceeded),
                Outcome::Fault => false,
            },
    {
        let ghost goal = spec_run(self.state(), fuel as nat);
        let mut remaining = fuel;
        loop
            invariant
                goal == spec_run(old(self).state(), fuel as nat),
                goal == spec_run(self.state(), remaining as nat),
                !(goal is Fault),
            decreases remaining,
        {
            if remaining == 0 {
                return Err(RuntimeError::StepLimitExceeded);
            }
            match self.step() {
                Some(result) => {
                    return result;
                },
                None => {},
            }
            remaining = remaining - 1;
        }
    }

    /// Runs one step: takes the next move of the call stack and acts on it. `None` means
    /// the run goes on.
    fn step(&mut self) -> (r: Option<Runtime<Value>>)
        requires
            !(spec_step(old(self).state()) is Fault),
        ensures
            match spec_step(old(self).state()) {
                Step::Continue(s2) => r is None && final(self).state() == s2,
                Step::Finished(res) => r matches Some(x) && result_view(x) == res,
                Step::Fault => false,
            },
    {
        match self.call_stack.next() {
            NextResult::IR(ir) => match self.eval(ir) {
                Ok(()) => None,
                Err(e) => Some(Err(e)),
            },
            NextResult::Return(offset) => {
                let value = self.stack.pop();
                self.stack.truncate(offset);
                self.stack.push(value);
                None
            },
            NextResult::Done => Some(Ok(self.stack.pop())),
        }
    }

    fn eval(&mut self, ir: IR) -> (r: Runtime<()>)
        requires
            spec_eval(ir, old(self).state()) is Some,
        ensures
            match spec_eval(ir, old(self).state()).unwrap() {
                Ok(s2) => r is Ok && final(self).state() == s2,
                Err(e) => r matches Err(e2) && runtime_error_view(e2) == e,
            },
    {
        let ghost ir0 = ir;
        let ghost st0 = self.state();
        match ir {
            IR::Unit => self.stack.push(Value::Unit),
            IR::Integer(value) => self.stack.push(Value::Integer(value)),
            IR::Local(address) => {
                let local_offset = self.call_stack.local_offset();
                let n = self.stack.size();
                assert(address + local_offset < n);
                let value = self.stack.get(address + local_offset);
                self.stack.push(value);
            },
            IR::IVal(index) => {
                let value = self.call_stack.ival(index);
                self.stack.push(value);
                assert(self.stack@ == spec_eval(ir0, st0).unwrap()->Ok_0.stack);
            },
            IR::Var(address) => {
                let absolute_address = address + self.call_stack.local_offset();
                self.stack.push(Value::Pointer(absolute_address));
            },
            IR::Object(class) => {
                let ghost s0 = self.stack@;
                let ivals = Rc::new(self.stack.take(class.get_ivals()));
                assert(values_view(ivals@) == s0.skip(s0.len() - class.ival_count()));
                let value = Value::Object(class, ivals);
                assert(value_view(value) == ValueV::Object(*class, s0.skip(s0.len() - class.ival_count())));
                self.stack.push(value);
            },
            IR::DoObject(class) => {
                let ivals = Rc::new(self.stack.take(class.get_ivals()));
                let return_from_index = self.call_stack.return_from_index();
                let value = Value::DoObject(class, ivals, return_from_index);
                self.stack.push(value);
                assert(self.stack@ == spec_eval(ir0, st0).unwrap()->Ok_0.stack);
            },
            IR::Deref => {
                let pointer = self.stack.pop();
                let value = pointer.deref(&self.stack);
                self.stack.push(value);
                assert(self.stack@ == spec_eval(ir0, st0).unwrap()->Ok_0.stack);
            },
            IR::SetVar => {
                let pointer = self.stack.pop();
                let value = self.stack.pop();
                pointer.set(value, &mut self.stack);
                assert(self.stack@ == spec_eval(ir0, st0).unwrap()->Ok_0.stack);
            },
            IR::Send(selector) => {
                let target = self.stack.pop();
                target.send(&selector, &mut self.stack, &mut self.call_stack)?;
            },
            IR::Return => self.call_stack.do_return(),
            IR::Drop => {
                self.stack.pop();
            },
        }
        Ok(())
    }
}

} // verus!
