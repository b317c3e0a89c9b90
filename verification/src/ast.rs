use vstd::prelude::*;

use crate::compiler::{
    exports_code,
    lemma_lookup_at_frames, error_view, frame_add_var, frame_bind, handler_frame, lookup_at, record_identifier, record_ival,
    record_passed, record_set, record_var_arg, replace_top, BindingRecord, Compile, CompileError,
    CompileErrorV, CompileIR, Compiler, FrameKind, FrameV, IRBuilder, IVals,
};
use crate::ir::{ValueV, Value};
use crate::parse_error::{Parse, ParseError};
use crate::runtime_2::{add_sorted, keys_of, keys_sorted, lookup_sorted};
use crate::sorted::{has_key, keyed, sorted_insert};
use crate::assoc::{entries_map, keys_distinct};
use crate::ir::{
    body_view, class_view, classv_add, classv_empty, ir_view, lemma_body_view, Class, ClassV, HandlerV, IRV,
    NativeOp, Param, IR,
};
use crate::text::{push_str, string_from_str, string_push};
use std::rc::Rc;
use crate::runtime_2::Address;

verus! {

/// A name being bound: a plain name, a `var` name, a `do` name, or a destructuring of an
/// object by keys.
#[derive(Debug, PartialEq)]
pub enum Binding {
    Identifier(String),
    VarIdentifier(String),
    DoIdentifier(String),
    Destructure(Vec<(String, Binding)>),
}

/// What binding a handler parameter left to do: nothing more, or the destructuring of
/// the argument held in a slot.
pub enum ParamResult {
    Value,
    Destructure(Address, Vec<(String, Binding)>),
    Var,
    Do,
}

impl ParamResult {
    /// How the handler takes the argument: a destructured argument is taken by value.
    pub fn param(&self) -> (p: Param)
        ensures
            p == (match *self {
                ParamResult::Value => Param::Value,
                ParamResult::Destructure(_, _) => Param::Value,
                ParamResult::Var => Param::Var,
                ParamResult::Do => Param::Do,
            }),
    {
        match self {
            Self::Value => Param::Value,
            Self::Destructure(_, _) => Param::Value,
            Self::Var => Param::Var,
            Self::Do => Param::Do,
        }
    }
}

impl Binding {
    /// Binds a handler parameter in the innermost frame: a name takes the next slot as a
    /// local, a `var` or `do` name as such, and a destructuring takes the next slot for
    /// the whole argument and leaves its parts for later.
    pub fn compile_param(self, compiler: &mut Compiler) -> (r: ParamResult)
        requires
            old(compiler).wf(),
            old(compiler).top().next_index < usize::MAX,
        ensures
            final(compiler).wf(),
            ({
                let st = old(compiler).frames_view();
                let t = old(compiler).top();
                match self {
                    Binding::Identifier(name) => r is Value && final(compiler).frames_view() == replace_top(
                        st,
                        frame_bind(t, Some(name@), BindingRecord::Local(t.next_index)),
                    ),
                    Binding::VarIdentifier(name) => r is Var && final(compiler).frames_view() == replace_top(
                        st,
                        frame_bind(t, Some(name@), BindingRecord::Var(t.next_index)),
                    ),
                    Binding::DoIdentifier(name) => r is Do && final(compiler).frames_view() == replace_top(
                        st,
                        frame_bind(t, Some(name@), BindingRecord::Do(t.next_index)),
                    ),
                    Binding::Destructure(items) => r == ParamResult::Destructure(t.next_index, items)
                        && final(compiler).frames_view() == replace_top(
                        st,
                        frame_bind(t, None, BindingRecord::Local(t.next_index)),
                    ),
                }
            }),
    {
        match self {
            Self::Identifier(name) => {
                compiler.add_let(name);
                ParamResult::Value
            },
            Self::Destructure(items) => {
                let addr = compiler.add_anon();
                ParamResult::Destructure(addr, items)
            },
            Self::VarIdentifier(name) => {
                compiler.add_var_param(name);
                ParamResult::Var
            },
            Self::DoIdentifier(name) => {
                compiler.add_do_param(name);
                ParamResult::Do
            },
        }
    }
}

/// A class view after adding each handler of `hs` in order.
pub open spec fn classv_fold(c: ClassV, hs: Seq<(Seq<char>, HandlerV)>) -> ClassV
    decreases hs.len(),
{
    if hs.len() == 0 {
        c
    } else {
        let last = hs.last();
        classv_add(classv_fold(c, hs.drop_last()), last.0, last.1)
    }
}

/// Adding one more handler to a fold adds it to the class folded so far.
pub proof fn lemma_fold_push(c: ClassV, a: Seq<(Seq<char>, HandlerV)>, x: (Seq<char>, HandlerV))
    ensures
        classv_fold(c, a.push(x)) == classv_add(classv_fold(c, a), x.0, x.1),
{
    assert(a.push(x).drop_last() =~= a);
}

/// `IVal(0) .. IVal(n - 1)`: every instance value of a frame, in order.
pub open spec fn all_ivals(n: nat) -> Seq<IRV> {
    Seq::new(n, |j: int| IRV::IVal(j as usize))
}

/// The instance values of a frame with the one at `i` replaced by the handler's argument.
pub open spec fn ivals_but(n: nat, i: int) -> Seq<IRV> {
    Seq::new(n, |j: int| if j == i { IRV::Local(0) } else { IRV::IVal(j as usize) })
}

/// The getter, setter (`key:`) and updater (`-> key:`) of the pair at `i` of a frame with
/// keys `keys`.
pub open spec fn pair_handlers(keys: Seq<Seq<char>>, i: int) -> Seq<(Seq<char>, HandlerV)> {
    let n = keys.len();
    let key = keys[i];
    seq![
        (key, HandlerV { params: seq![], body: seq![IRV::IVal(i as usize)] }),
        (key + seq![':'], HandlerV { params: seq![Param::Value], body: ivals_but(n, i).push(IRV::NewSelf(n as usize)) }),
        (seq!['-', '>', ' '] + key + seq![':'], HandlerV {
            params: seq![Param::Do],
            body: seq![
                IRV::IVal(i as usize),
                IRV::Local(0),
                IRV::Send(seq![':'], 1),
                IRV::SelfRef,
                IRV::Send(key + seq![':'], 1),
            ],
        }),
    ]
}

/// The handlers of the pairs before `k`, in order.
pub open spec fn pairs_handlers(keys: Seq<Seq<char>>, k: nat) -> Seq<(Seq<char>, HandlerV)>
    decreases k,
{
    if k == 0 {
        Seq::empty()
    } else {
        pairs_handlers(keys, (k - 1) as nat) + pair_handlers(keys, k - 1)
    }
}

/// The handlers a frame class is built from, in the order they are added: the matcher
/// `:` (which sends the frame's selector with its values to a do-block), `=:` and `!=:`
/// (carried out by the machine), then a fold `:into:` for a frame without pairs, or the
/// handlers of each pair.
pub open spec fn frame_handlers(selector: Seq<char>, keys: Seq<Seq<char>>) -> Seq<(Seq<char>, HandlerV)> {
    let n = keys.len();
    seq![
        (seq![':'], HandlerV {
            params: seq![Param::Do],
            body: all_ivals(n) + seq![IRV::Local(0), IRV::Send(selector, n as usize)],
        }),
        (seq!['=', ':'], HandlerV {
            params: seq![Param::Value],
            body: seq![IRV::SelfRef, IRV::SendNative(NativeOp::Equal, 1)],
        }),
        (seq!['!', '=', ':'], HandlerV {
            params: seq![Param::Value],
            body: seq![IRV::SelfRef, IRV::SendNative(NativeOp::NotEqual, 1)],
        }),
    ] + if n == 0 {
        seq![
            (seq![':', 'i', 'n', 't', 'o', ':'], HandlerV {
                params: seq![Param::Value, Param::Value],
                body: seq![IRV::Send(selector + seq![':'], 1)],
            }),
        ]
    } else {
        pairs_handlers(keys, n)
    }
}

/// The class of a frame literal with the given selector and keys.
pub open spec fn spec_frame_class(selector: Seq<char>, keys: Seq<Seq<char>>) -> ClassV {
    classv_fold(classv_empty(), frame_handlers(selector, keys))
}

/// The keys of a frame literal's pairs.
pub open spec fn pair_keys<E>(pairs: Seq<(String, E)>) -> Seq<Seq<char>> {
    pairs.map_values(|p: (String, E)| p.0@)
}

/// The class of a frame literal: `selector` with pairs `pairs` (only their keys and
/// number matter). Frames with the same selector get classes with the same handlers.
pub fn frame_class<E>(selector: String, pairs: &[(String, E)]) -> (c: Rc<Class>)
    requires
        pairs@.len() < usize::MAX,
    ensures
        class_view(*c) == spec_frame_class(selector@, pair_keys(pairs@)),
{
    let ghost keys = pair_keys(pairs@);
    let n = pairs.len();
    assert(keys.len() == n);
    let ghost hs = frame_handlers(selector@, keys);
    let ghost mut added: Seq<(Seq<char>, HandlerV)> = Seq::empty();
    let mut class = Class::new();
    // match
    let mut body: Vec<IR> = Vec::new();
    let mut i: usize = 0;
    while i < n
        invariant
            i <= n,
            body_view(body@) == all_ivals(i as nat),
        decreases n - i,
    {
        proof {
            crate::ir::lemma_body_view_push(body@, IR::IVal(i));
            assert(all_ivals(i as nat).push(IRV::IVal(i)) =~= all_ivals((i + 1) as nat));
        }
        body.push(IR::IVal(i));
        i = i + 1;
    }
    let ghost b0 = body@;
    body.push(IR::Local(0));
    let ghost b1 = body@;
    let sel = string_from_str(selector.as_str());
    body.push(IR::Send(sel, n));
    proof {
        reveal_strlit(":");
        reveal_strlit("=:");
        reveal_strlit("!=:");
        reveal_strlit(":into:");
        crate::ir::lemma_body_view_push(b0, IR::Local(0));
        crate::ir::lemma_body_view_push(b1, body@.last());
        assert(body@ == b1.push(body@.last()));
        assert(hs[0].0 == seq![':']);
        assert(body_view(body@) =~= hs[0].1.body);
    }
    let params0 = vec![Param::Do];
    let ghost hv0 = HandlerV { params: params0@, body: body_view(body@) };
    proof {
        assert(params0@ =~= hs[0].1.params);
        assert(hv0 == hs[0].1);
    }
    class.add(":", params0, body);
    proof {
        added = added.push(hs[0]);
        assert(added.last() == hs[0]);
        assert(added.drop_last() =~= Seq::<(Seq<char>, HandlerV)>::empty());
        assert(classv_fold(classv_empty(), added.drop_last()) == classv_empty());
        assert(classv_fold(classv_empty(), added) == classv_add(classv_empty(), seq![':'], hv0));
        assert(":"@ == seq![':']);
        assert(class_view(class) == classv_add(classv_empty(), ":"@, hv0));
        assert(class_view(class) == classv_fold(classv_empty(), added));
    }
    let params1 = vec![Param::Value];
    proof {
        assert(params1@ =~= hs[1].1.params);
        assert(hs[1].1.body =~= seq![IRV::SelfRef, IRV::SendNative(NativeOp::Equal, params1@.len() as usize)]);
    }
    let ghost hv1 = HandlerV {
        params: params1@,
        body: seq![IRV::SelfRef, IRV::SendNative(NativeOp::Equal, params1@.len() as usize)],
    };
    proof {
        assert(hv1 == hs[1].1);
        assert(hs[1].0 == seq!['=', ':']);
        assert("=:"@ == hs[1].0);
    }
    class.add_native("=:", params1, NativeOp::Equal);
    proof {
        lemma_fold_push(classv_empty(), added, hs[1]);
        added = added.push(hs[1]);
        assert(class_view(class) == classv_fold(classv_empty(), added));
    }
    let params2 = vec![Param::Value];
    proof {
        assert(params2@ =~= hs[2].1.params);
        assert(hs[2].1.body =~= seq![IRV::SelfRef, IRV::SendNative(NativeOp::NotEqual, params2@.len() as usize)]);
    }
    let ghost hv2 = HandlerV {
        params: params2@,
        body: seq![IRV::SelfRef, IRV::SendNative(NativeOp::NotEqual, params2@.len() as usize)],
    };
    proof {
        assert(hv2 == hs[2].1);
        assert(hs[2].0 == seq!['!', '=', ':']);
        assert("!=:"@ == hs[2].0);
    }
    class.add_native("!=:", params2, NativeOp::NotEqual);
    proof {
        lemma_fold_push(classv_empty(), added, hs[2]);
        added = added.push(hs[2]);
        assert(class_view(class) == classv_fold(classv_empty(), added));
    }
    if n == 0 {
        let mut s = string_from_str(selector.as_str());
        string_push(&mut s, ':');
        proof {
            assert(s@ =~= selector@ + seq![':']);
            assert(keys.len() == 0);
            assert(hs[3].1.body == seq![IRV::Send(selector@ + seq![':'], 1)]);
            assert(":into:"@ == hs[3].0);
        }
        let into = vec![IR::Send(s, 1)];
        proof {
            lemma_body_view(into@);
            assert(body_view(into@) =~= hs[3].1.body);
        }
        let params3 = vec![Param::Value, Param::Value];
        proof {
            assert(params3@ =~= hs[3].1.params);
        }
        class.add(":into:", params3, into);
        proof {
            lemma_fold_push(classv_empty(), added, hs[3]);
            added = added.push(hs[3]);
            assert(added =~= hs);
        }
    } else {
        let mut k: usize = 0;
        while k < n
            invariant
                k <= n,
                n == pairs@.len(),
                n < usize::MAX,
                keys == pair_keys(pairs@),
                added == seq![hs[0], hs[1], hs[2]] + pairs_handlers(keys, k as nat),
                class_view(class) == classv_fold(classv_empty(), added),
            decreases n - k,
        {
            let key = &pairs[k].0;
            let ghost kv = keys[k as int];
            assert(key@ == kv);
            let ghost ph = pair_handlers(keys, k as int);
            proof {
                reveal_strlit(":");
                reveal_strlit("-> ");
            }
            // getter
            let getter = vec![IR::IVal(k)];
            proof {
                lemma_body_view(getter@);
                assert(body_view(getter@) =~= ph[0].1.body);
            }
            let gp: Vec<Param> = vec![];
            proof {
                assert(gp@ =~= ph[0].1.params);
            }
            class.add_handler(string_from_str(key.as_str()), gp, getter);
            proof {
                lemma_fold_push(classv_empty(), added, ph[0]);
                added = added.push(ph[0]);
            }
            // setter
            let mut setter: Vec<IR> = Vec::new();
            let mut j: usize = 0;
            while j < n
                invariant
                    j <= n,
                    k < n,
                    body_view(setter@) == ivals_but(n as nat, k as int).take(j as int),
                decreases n - j,
            {
                let ghost before = setter@;
                if j == k {
                    setter.push(IR::Local(0));
                } else {
                    setter.push(IR::IVal(j));
                }
                proof {
                    crate::ir::lemma_body_view_push(before, setter@.last());
                    assert(setter@ == before.push(setter@.last()));
                    assert(ivals_but(n as nat, k as int).take(j as int).push(
                        ivals_but(n as nat, k as int)[j as int],
                    ) =~= ivals_but(n as nat, k as int).take(j + 1));
                }
                j = j + 1;
            }
            let ghost sb = setter@;
            setter.push(IR::NewSelf(n));
            proof {
                crate::ir::lemma_body_view_push(sb, IR::NewSelf(n));
                assert(ivals_but(n as nat, k as int).take(n as int) =~= ivals_but(n as nat, k as int));
            }
            let mut setter_sel = string_from_str(key.as_str());
            string_push(&mut setter_sel, ':');
            let sp = vec![Param::Value];
            proof {
                assert(sp@ =~= ph[1].1.params);
                assert(setter_sel@ =~= ph[1].0);
            }
            class.add_handler(setter_sel, sp, setter);
            proof {
                lemma_fold_push(classv_empty(), added, ph[1]);
                added = added.push(ph[1]);
            }
            // update
            let mut update_sel = string_from_str("-> ");
            push_str(&mut update_sel, key.as_str());
            string_push(&mut update_sel, ':');
            let mut target_sel = string_from_str(key.as_str());
            string_push(&mut target_sel, ':');
            let colon = string_from_str(":");
            proof {
                assert(colon@ =~= seq![':']);
                assert(target_sel@ =~= kv + seq![':']);
            }
            let update = vec![
                IR::IVal(k),
                IR::Local(0),
                IR::Send(colon, 1),
                IR::SelfRef,
                IR::Send(target_sel, 1),
            ];
            proof {
                lemma_body_view(update@);
                assert(body_view(update@) =~= ph[2].1.body);
                assert(update_sel@ =~= ph[2].0);
            }
            let up = vec![Param::Do];
            proof {
                assert(up@ =~= ph[2].1.params);
            }
            class.add_handler(update_sel, up, update);
            proof {
                lemma_fold_push(classv_empty(), added, ph[2]);
                added = added.push(ph[2]);
                assert(pairs_handlers(keys, (k + 1) as nat) == pairs_handlers(keys, k as nat) + ph);
                assert(added =~= seq![hs[0], hs[1], hs[2]] + pairs_handlers(keys, (k + 1) as nat));
            }
            k = k + 1;
        }
        proof {
            assert(added =~= hs);
        }
    }
    class.rc()
}

// ---------------------------------------------------------------------------
// The syntax tree of a module and what compiling it gives
// ---------------------------------------------------------------------------
/// Whether a binding statement also exports the names it binds.
pub type IsExport = bool;

/// Statements.
pub enum Stmt {
    Expr(Expr),
    Let(Binding, Expr, IsExport),
    Var(Binding, Expr),
    Assign(Binding, Expr),
    Import(Binding, String, IsExport),
    Return(Expr),
}

/// Expressions. `VarArg` and `DoArg` stand only as arguments of a send (a do-block also
/// as its target).
pub enum Expr {
    Unit,
    SelfRef,
    Bool(bool),
    Integer(i64),
    String(String),
    Identifier(String),
    Send(String, Box<Expr>, Vec<Expr>),
    TrySend(String, Box<Expr>, Vec<Expr>, Box<Expr>),
    Object(Object),
    VarArg(String),
    DoArg(Object),
    Frame(String, Vec<(String, Expr)>),
    If(Box<Expr>, Vec<Stmt>, Vec<Stmt>),
    Paren(Vec<Stmt>),
}

/// A handler of an object literal: its parameters and body.
pub struct Handler {
    pub params: Vec<Binding>,
    pub body: Vec<Stmt>,
}

/// An object literal: its handlers, by selector.
pub struct Object {
    handlers: Vec<(String, Handler)>,
}

/// What compiling a piece of a module gives: the compiler frames afterwards and the
/// result, a compile error, or `Fault` where the compiler would panic.
pub enum Out<T> {
    Done(Seq<FrameV>, T),
    Failed(CompileErrorV),
    Fault,
}

/// A compile result agrees with the spec outcome.
pub open spec fn matches_out(o: Out<Seq<IRV>>, r: CompileIR, after: Seq<FrameV>) -> bool {
    match o {
        Out::Done(st, ir) => r matches Ok(b) && b@ == ir && after == st,
        Out::Failed(e) => r matches Err(e2) && error_view(e2) == e,
        Out::Fault => false,
    }
}

/// `code` followed by what `o` gives.
pub open spec fn prepend(code: Seq<IRV>, o: Out<Seq<IRV>>) -> Out<Seq<IRV>> {
    match o {
        Out::Done(st, c) => Out::Done(st, code + c),
        Out::Failed(e) => Out::Failed(e),
        Out::Fault => Out::Fault,
    }
}

/// One piece after another: the second starts from the frames the first leaves.
pub open spec fn then_code(o: Out<Seq<IRV>>, f: spec_fn(Seq<FrameV>) -> Out<Seq<IRV>>) -> Out<Seq<IRV>> {
    match o {
        Out::Done(st, c) => prepend(c, f(st)),
        Out::Failed(e) => Out::Failed(e),
        Out::Fault => Out::Fault,
    }
}

pub open spec fn top_depth(st: Seq<FrameV>) -> nat {
    (st.len() - 1) as nat
}

/// Resolving a name and turning its binding into code with `code`.
pub open spec fn c_name(
    st: Seq<FrameV>,
    key: Seq<char>,
    code: spec_fn(BindingRecord) -> Result<Seq<IRV>, CompileErrorV>,
) -> Out<Seq<IRV>> {
    match lookup_at(st, key, top_depth(st)) {
        Ok((st2, rec)) => match code(rec) {
            Ok(ir) => Out::Done(st2, ir),
            Err(e) => Out::Failed(e),
        },
        Err(e) => Out::Failed(e),
    }
}

/// Binding the names of a binding to the value on the stack, in the innermost frame: a
/// name takes the next slot; a destructuring takes the next slot for the whole value and
/// binds each part, got by sending its key to the value; `var` and `do` names cannot be
/// bound here.
pub open spec fn b_let(st: Seq<FrameV>, b: Binding, export: bool) -> Out<Seq<IRV>>
    decreases b, 1nat,
{
    let t = st.last();
    if t.next_index >= usize::MAX {
        Out::Fault
    } else {
        match b {
            Binding::Identifier(n) => {
                let bound = frame_bind(t, Some(n@), BindingRecord::Local(t.next_index));
                if !export {
                    Out::Done(replace_top(st, bound), Seq::empty())
                } else {
                    match t.kind {
                        FrameKind::Root => if t.exports.contains_key(n@) {
                            Out::Failed(CompileErrorV::DuplicateExport(n@))
                        } else {
                            Out::Done(
                                replace_top(st, FrameV { exports: t.exports.insert(n@, t.next_index), ..bound }),
                                Seq::empty(),
                            )
                        },
                        _ => Out::Failed(CompileErrorV::InvalidExport(n@)),
                    }
                }
            },
            Binding::Destructure(items) => b_lets(
                replace_top(st, frame_bind(t, None, BindingRecord::Local(t.next_index))),
                t.next_index,
                items@,
                export,
            ),
            _ => Out::Fault,
        }
    }
}

/// Binding the parts of a destructured value held at `a`, in order.
pub open spec fn b_lets(st: Seq<FrameV>, a: usize, items: Seq<(String, Binding)>, export: bool) -> Out<Seq<IRV>>
    decreases items, 0nat,
{
    if items.len() == 0 {
        Out::Done(st, Seq::empty())
    } else {
        prepend(
            seq![IRV::Local(a), IRV::Send(items[0].0@, 0)],
            match b_let(st, items[0].1, export) {
                Out::Done(st1, c) => prepend(c, b_lets(st1, a, items.drop_first(), export)),
                Out::Failed(e) => Out::Failed(e),
                Out::Fault => Out::Fault,
            },
        )
    }
}

/// Binding a `var` name: its cell is made at the next slot, its value at the one after.
pub open spec fn b_var(st: Seq<FrameV>, b: Binding) -> Out<Seq<IRV>> {
    let t = st.last();
    match b {
        Binding::Identifier(n) => if t.next_index + 2 > usize::MAX {
            Out::Fault
        } else {
            Out::Done(replace_top(st, frame_add_var(t, n@)), seq![IRV::Var(t.next_index)])
        },
        _ => Out::Fault,
    }
}

/// Setting a name.
pub open spec fn b_set(st: Seq<FrameV>, b: Binding) -> Out<Seq<IRV>> {
    match b {
        Binding::Identifier(n) => c_name(st, n@, |r: BindingRecord| record_set(r, n@)),
        _ => Out::Fault,
    }
}

/// What binding a parameter leaves to do, taking slot `a`.
pub open spec fn param_result(b: Binding, a: usize) -> ParamResult {
    match b {
        Binding::Identifier(_) => ParamResult::Value,
        Binding::VarIdentifier(_) => ParamResult::Var,
        Binding::DoIdentifier(_) => ParamResult::Do,
        Binding::Destructure(items) => ParamResult::Destructure(a, items),
    }
}

/// The frame after binding a parameter.
pub open spec fn param_bind(t: FrameV, b: Binding) -> FrameV {
    match b {
        Binding::Identifier(n) => frame_bind(t, Some(n@), BindingRecord::Local(t.next_index)),
        Binding::VarIdentifier(n) => frame_bind(t, Some(n@), BindingRecord::Var(t.next_index)),
        Binding::DoIdentifier(n) => frame_bind(t, Some(n@), BindingRecord::Do(t.next_index)),
        Binding::Destructure(_) => frame_bind(t, None, BindingRecord::Local(t.next_index)),
    }
}

/// Binding a handler's parameters in order; `None` where the slots run out.
pub open spec fn c_params(st: Seq<FrameV>, ps: Seq<Binding>) -> Option<(Seq<FrameV>, Seq<ParamResult>)>
    decreases ps.len(),
{
    if ps.len() == 0 {
        Some((st, Seq::empty()))
    } else if st.last().next_index >= usize::MAX {
        None
    } else {
        let st1 = replace_top(st, param_bind(st.last(), ps[0]));
        match c_params(st1, ps.drop_first()) {
            Some((st2, rs)) => Some((st2, seq![param_result(ps[0], st.last().next_index)] + rs)),
            None => None,
        }
    }
}

/// The parameter kinds of the results.
pub open spec fn result_params(rs: Seq<ParamResult>) -> Seq<Param> {
    rs.map_values(|r: ParamResult| match r {
        ParamResult::Var => Param::Var,
        ParamResult::Do => Param::Do,
        _ => Param::Value,
    })
}

/// The code of the parameters' destructurings, in order.
pub open spec fn c_results(st: Seq<FrameV>, rs: Seq<ParamResult>) -> Out<Seq<IRV>>
    decreases rs.len(),
{
    if rs.len() == 0 {
        Out::Done(st, Seq::empty())
    } else {
        match match rs[0] {
            ParamResult::Destructure(a, items) => b_lets(st, a, items@, false),
            _ => Out::Done(st, Seq::empty()),
        } {
            Out::Done(st1, c) => prepend(c, c_results(st1, rs.drop_first())),
            Out::Failed(e) => Out::Failed(e),
            Out::Fault => Out::Fault,
        }
    }
}

/// The code that pushes captured values.
pub open spec fn ivals_code(ivs: Seq<BindingRecord>) -> Seq<IRV> {
    ivs.map_values(|v: BindingRecord| record_ival(v))
}

/// The instruction that builds an object of `cls` from `n` values (a constant without).
pub open spec fn object_code(cls: ClassV, n: nat) -> IRV {
    if n == 0 {
        IRV::Constant(ValueV::Object(cls, Seq::empty()))
    } else {
        IRV::Object(cls, n as usize)
    }
}

/// Captures and class built so far by compiling handlers.
pub type Built = (Map<Seq<char>, BindingRecord>, Seq<BindingRecord>, ClassV);

/// The code a body of statements gives, all but the last dropping their value, the last
/// leaving one (unit for an empty body).
pub open spec fn c_body(st: Seq<FrameV>, b: Seq<Stmt>) -> Out<Seq<IRV>>
    decreases b, 1nat,
{
    if b.len() == 0 {
        Out::Done(st, seq![IRV::Constant(ValueV::Unit)])
    } else {
        c_stmts(st, b)
    }
}

pub open spec fn c_stmts(st: Seq<FrameV>, b: Seq<Stmt>) -> Out<Seq<IRV>>
    decreases b, 0nat,
{
    if b.len() == 0 {
        Out::Done(st, Seq::empty())
    } else if b.len() == 1 {
        c_last(st, b[0])
    } else {
        match c_most(st, b[0]) {
            Out::Done(st1, x) => prepend(x, c_stmts(st1, b.drop_first())),
            Out::Failed(e) => Out::Failed(e),
            Out::Fault => Out::Fault,
        }
    }
}

/// A statement that is not the last: an expression's value is dropped.
pub open spec fn c_most(st: Seq<FrameV>, s: Stmt) -> Out<Seq<IRV>>
    decreases s, 1nat,
{
    match s {
        Stmt::Expr(_) => match c_stmt(st, s) {
            Out::Done(st1, x) => Out::Done(st1, x.push(IRV::Drop)),
            o => o,
        },
        _ => c_stmt(st, s),
    }
}

/// The last statement: a statement that leaves no value leaves unit.
pub open spec fn c_last(st: Seq<FrameV>, s: Stmt) -> Out<Seq<IRV>>
    decreases s, 1nat,
{
    match s {
        Stmt::Expr(_) => c_stmt(st, s),
        _ => match c_stmt(st, s) {
            Out::Done(st1, x) => Out::Done(st1, x.push(IRV::Constant(ValueV::Unit))),
            o => o,
        },
    }
}

/// A statement's own code.
pub open spec fn c_stmt(st: Seq<FrameV>, s: Stmt) -> Out<Seq<IRV>>
    decreases s, 0nat,
{
    match s {
        Stmt::Expr(e) => c_expr(st, e, None),
        Stmt::Let(b, e, export) => match c_expr(st, e, Some(b)) {
            Out::Done(st1, x) => prepend(x, b_let(st1, b, export)),
            o => o,
        },
        Stmt::Var(b, e) => match c_expr(st, e, None) {
            Out::Done(st1, x) => prepend(x, b_var(st1, b)),
            o => o,
        },
        Stmt::Assign(b, e) => match c_expr(st, e, None) {
            Out::Done(st1, x) => prepend(x, b_set(st1, b)),
            o => o,
        },
        Stmt::Import(b, name, export) => prepend(seq![IRV::Module(name@)], b_let(st, b, export)),
        Stmt::Return(e) => match c_expr(st, e, None) {
            Out::Done(st1, x) => Out::Done(st1, x.push(IRV::Return)),
            o => o,
        },
    }
}

/// An expression whose value is used; `self_binding` is the binding a `let` gives it, which
/// an object literal binds to itself in each of its handlers.
pub open spec fn c_expr(st: Seq<FrameV>, e: Expr, self_binding: Option<Binding>) -> Out<Seq<IRV>>
    decreases e, 0nat,
{
    match e {
        Expr::Unit => Out::Done(st, seq![IRV::Constant(ValueV::Unit)]),
        Expr::SelfRef => Out::Done(st, seq![IRV::SelfRef]),
        Expr::Bool(b) => Out::Done(st, seq![IRV::Constant(ValueV::Bool(b))]),
        Expr::Integer(i) => Out::Done(st, seq![IRV::Constant(ValueV::Integer(i))]),
        Expr::String(s) => Out::Done(st, seq![IRV::Constant(ValueV::String(s@))]),
        Expr::Identifier(n) => c_name(st, n@, |r: BindingRecord| record_identifier(r, n@)),
        Expr::Send(sel, target, args) => match c_args(st, args@) {
            Out::Done(st1, a) => match c_target(st1, *target) {
                Out::Done(st2, t) => Out::Done(st2, a + t + seq![IRV::Send(sel@, args@.len() as usize)]),
                o => o,
            },
            o => o,
        },
        Expr::TrySend(sel, target, args, or_else) => match c_args(st, args@) {
            Out::Done(st1, a) => match c_do_expr(st1, *or_else) {
                Out::Done(st2, d) => match c_target(st2, *target) {
                    Out::Done(st3, t) => Out::Done(
                        st3,
                        a + d + t + seq![IRV::TrySend(sel@, args@.len() as usize)],
                    ),
                    o => o,
                },
                o => o,
            },
            o => o,
        },
        Expr::Object(o) => c_object(st, o, self_binding),
        Expr::Frame(sel, pairs) => if pairs@.len() >= usize::MAX {
            Out::Fault
        } else {
            match c_pairs(st, pairs@) {
            Out::Done(st1, a) => Out::Done(
                st1,
                a.push(object_code(spec_frame_class(sel@, pair_keys(pairs@)), pairs@.len())),
            ),
            o => o,
        }},
        Expr::If(cond, if_true, if_false) => match c_do_body(st, Map::empty(), Seq::empty(), classv_empty(), seq!['f', 'a', 'l', 's', 'e'], if_false@) {
            Out::Done(st1, (m1, v1, k1)) => match c_do_body(st1, m1, v1, k1, seq!['t', 'r', 'u', 'e'], if_true@) {
                Out::Done(st2, (_, v2, k2)) => match c_target(st2, *cond) {
                    Out::Done(st3, t) => Out::Done(
                        st3,
                        ivals_code(v2).push(IRV::DoObject(k2, v2.len() as usize)) + t + seq![IRV::Send(seq![':'], 1)],
                    ),
                    o => o,
                },
                Out::Failed(e) => Out::Failed(e),
                Out::Fault => Out::Fault,
            },
            Out::Failed(e) => Out::Failed(e),
            Out::Fault => Out::Fault,
        },
        Expr::Paren(body) => if body@.len() == 0 {
            Out::Done(st, seq![IRV::Constant(ValueV::Unit)])
        } else if body@.len() == 1 && body@[0] is Expr {
            c_expr(st, body@[0]->Expr_0, None)
        } else {
            match c_do_body(st, Map::empty(), Seq::empty(), classv_empty(), Seq::empty(), body@) {
                Out::Done(st1, (_, v1, k1)) => Out::Done(
                    st1,
                    ivals_code(v1).push(IRV::DoObject(k1, v1.len() as usize)) + seq![IRV::Send(Seq::empty(), 0)],
                ),
                Out::Failed(e) => Out::Failed(e),
                Out::Fault => Out::Fault,
            }
        },
        Expr::VarArg(_) => Out::Fault,
        Expr::DoArg(_) => Out::Fault,
    }
}

/// An argument of a send.
pub open spec fn c_arg(st: Seq<FrameV>, e: Expr) -> Out<Seq<IRV>>
    decreases e, 1nat,
{
    match e {
        Expr::VarArg(n) => c_name(st, n@, |r: BindingRecord| record_var_arg(r, n@)),
        Expr::DoArg(o) => c_do(st, o),
        Expr::Identifier(n) => c_name(st, n@, |r: BindingRecord| record_passed(r, n@)),
        _ => c_expr(st, e, None),
    }
}

/// The target of a send.
pub open spec fn c_target(st: Seq<FrameV>, e: Expr) -> Out<Seq<IRV>>
    decreases e, 1nat,
{
    match e {
        Expr::DoArg(o) => c_do(st, o),
        Expr::Identifier(n) => c_name(st, n@, |r: BindingRecord| record_passed(r, n@)),
        _ => c_expr(st, e, None),
    }
}

/// The arguments of a send, in order.
pub open spec fn c_args(st: Seq<FrameV>, args: Seq<Expr>) -> Out<Seq<IRV>>
    decreases args, 0nat,
{
    if args.len() == 0 {
        Out::Done(st, Seq::empty())
    } else {
        match c_arg(st, args[0]) {
            Out::Done(st1, a) => prepend(a, c_args(st1, args.drop_first())),
            o => o,
        }
    }
}

/// The values of a frame literal's pairs, in order, each passed as an argument.
pub open spec fn c_pairs(st: Seq<FrameV>, pairs: Seq<(String, Expr)>) -> Out<Seq<IRV>>
    decreases pairs, 0nat,
{
    if pairs.len() == 0 {
        Out::Done(st, Seq::empty())
    } else {
        match c_arg(st, pairs[0].1) {
            Out::Done(st1, a) => prepend(a, c_pairs(st1, pairs.drop_first())),
            o => o,
        }
    }
}

/// A do-block handler `sel` with no parameters and the given body, compiled in a frame of
/// its own that starts from the captures so far, added to the class being built.
pub open spec fn c_do_body(
    st: Seq<FrameV>,
    imap: Map<Seq<char>, BindingRecord>,
    ivs: Seq<BindingRecord>,
    cls: ClassV,
    sel: Seq<char>,
    body: Seq<Stmt>,
) -> Out<Built>
    decreases body, 2nat,
{
    match c_body(st.push(handler_frame(true, imap, ivs)), body) {
        Out::Done(st2, code) => Out::Done(
            st2.drop_last(),
            (st2.last().ival_map, st2.last().ivals, classv_add(cls, sel, HandlerV { params: Seq::empty(), body: code })),
        ),
        Out::Failed(e) => Out::Failed(e),
        Out::Fault => Out::Fault,
    }
}

/// The do-block a failed try-send runs instead: one handler `` with the given expression
/// as its body.
pub open spec fn c_do_expr(st: Seq<FrameV>, e: Expr) -> Out<Seq<IRV>>
    decreases e, 2nat,
{
    match c_expr(st.push(handler_frame(true, Map::empty(), Seq::empty())), e, None) {
        Out::Done(st2, code) => {
            let ivs = st2.last().ivals;
            let cls = classv_add(classv_empty(), Seq::empty(), HandlerV { params: Seq::empty(), body: code });
            Out::Done(st2.drop_last(), ivals_code(ivs).push(IRV::DoObject(cls, ivs.len() as usize)))
        },
        Out::Failed(e) => Out::Failed(e),
        Out::Fault => Out::Fault,
    }
}

/// An object literal: its handlers compiled in order, each in a frame of its own, then
/// the captured values pushed and the object built.
pub closed spec fn c_object(st: Seq<FrameV>, o: Object, self_binding: Option<Binding>) -> Out<Seq<IRV>>
    decreases o, 1nat,
{
    match c_handlers(st, o.handlers@, Map::empty(), Seq::empty(), classv_empty(), false, self_binding) {
        Out::Done(st1, (_, ivs, cls)) => Out::Done(st1, ivals_code(ivs).push(object_code(cls, ivs.len()))),
        Out::Failed(e) => Out::Failed(e),
        Out::Fault => Out::Fault,
    }
}

/// A do-block.
pub closed spec fn c_do(st: Seq<FrameV>, o: Object) -> Out<Seq<IRV>>
    decreases o, 1nat,
{
    match c_handlers(st, o.handlers@, Map::empty(), Seq::empty(), classv_empty(), true, None) {
        Out::Done(st1, (_, ivs, cls)) => Out::Done(
            st1,
            ivals_code(ivs).push(IRV::DoObject(cls, ivs.len() as usize)),
        ),
        Out::Failed(e) => Out::Failed(e),
        Out::Fault => Out::Fault,
    }
}

/// Handlers compiled in order, threading the captures and the class being built: the
/// parameters are bound, their destructurings run, an object bound by a `let` binds
/// itself (`SelfRef`) to that binding, then the body.
pub closed spec fn c_handlers(
    st: Seq<FrameV>,
    hs: Seq<(String, Handler)>,
    imap: Map<Seq<char>, BindingRecord>,
    ivs: Seq<BindingRecord>,
    cls: ClassV,
    is_do: bool,
    self_binding: Option<Binding>,
) -> Out<Built>
    decreases hs, 0nat,
{
    if hs.len() == 0 {
        Out::Done(st, (imap, ivs, cls))
    } else {
        let sel = hs[0].0;
        let h = hs[0].1;
        match c_params(st.push(handler_frame(is_do, imap, ivs)), h.params@) {
            None => Out::Fault,
            Some((st2, rs)) => match c_results(st2, rs) {
                Out::Done(st3, pc) => match match self_binding {
                    Some(b) => prepend(seq![IRV::SelfRef], b_let(st3, b, false)),
                    None => Out::Done(st3, Seq::empty()),
                } {
                    Out::Done(st4, sc) => match c_body(st4, h.body@) {
                        Out::Done(st5, body) => c_handlers(
                            st5.drop_last(),
                            hs.drop_first(),
                            st5.last().ival_map,
                            st5.last().ivals,
                            classv_add(cls, sel@, HandlerV { params: result_params(rs), body: pc + sc + body }),
                            is_do,
                            self_binding,
                        ),
                        Out::Failed(e) => Out::Failed(e),
                        Out::Fault => Out::Fault,
                    },
                    Out::Failed(e) => Out::Failed(e),
                    Out::Fault => Out::Fault,
                },
                Out::Failed(e) => Out::Failed(e),
                Out::Fault => Out::Fault,
            },
        }
    }
}

/// The frames a compiler starts with: the module's top-level frame alone.
pub open spec fn initial_frames() -> Seq<FrameV> {
    seq![
        FrameV {
            kind: FrameKind::Root,
            locals: Map::empty(),
            next_index: 0,
            ival_map: Map::empty(),
            ivals: Seq::empty(),
            exports: Map::empty(),
        },
    ]
}

/// What compiling a program gives: its code or the compile error; `None` where the
/// compiler would panic.
pub open spec fn spec_program(program: Seq<Stmt>) -> Option<Result<Seq<IRV>, CompileErrorV>> {
    match c_body(initial_frames(), program) {
        Out::Done(_, code) => Some(Ok(code)),
        Out::Failed(e) => Some(Err(e)),
        Out::Fault => None,
    }
}

/// The binding an optional reference stands for.
pub open spec fn opt_binding(b: Option<&Binding>) -> Option<Binding> {
    match b {
        Some(x) => Some(*x),
        None => None,
    }
}

proof fn lemma_prepend_assoc(x: Seq<IRV>, y: Seq<IRV>, o: Out<Seq<IRV>>)
    ensures
        prepend(x, prepend(y, o)) == prepend(x + y, o),
{
    match o {
        Out::Done(st, c) => {
            assert(x + (y + c) =~= (x + y) + c);
        },
        _ => {},
    }
}

impl Binding {
    /// Binds this binding's names to the value on the stack (also exporting them where
    /// `export` is set).
    fn compile_let(&self, compiler: &mut Compiler, export: bool) -> (r: CompileIR)
        requires
            old(compiler).wf(),
            !(b_let(old(compiler).frames_view(), *self, export) is Fault),
        ensures
            final(compiler).wf(),
            matches_out(b_let(old(compiler).frames_view(), *self, export), r, final(compiler).frames_view()),
            r is Ok ==> final(compiler).frames_view().len() == old(compiler).frames_view().len(),
        decreases *self, 1nat,
    {
        match self {
            Binding::Identifier(name) => {
                let n = string_from_str(name.as_str());
                if export {
                    compiler.add_let_export(n)?;
                } else {
                    compiler.add_let(n);
                }
                Ok(IRBuilder::new())
            },
            Binding::Destructure(items) => {
                let addr = compiler.add_anon();
                compile_lets(items, addr, compiler, export)
            },
            _ => vstd::pervasive::unreached(),
        }
    }

    fn compile_var(self, compiler: &mut Compiler) -> (r: CompileIR)
        requires
            old(compiler).wf(),
            !(b_var(old(compiler).frames_view(), self) is Fault),
        ensures
            final(compiler).wf(),
            matches_out(b_var(old(compiler).frames_view(), self), r, final(compiler).frames_view()),
            r is Ok ==> final(compiler).frames_view().len() == old(compiler).frames_view().len(),
    {
        match self {
            Binding::Identifier(name) => compiler.add_var(name),
            _ => vstd::pervasive::unreached(),
        }
    }

    fn compile_set(self, compiler: &mut Compiler) -> (r: CompileIR)
        requires
            old(compiler).wf(),
            !(b_set(old(compiler).frames_view(), self) is Fault),
        ensures
            final(compiler).wf(),
            matches_out(b_set(old(compiler).frames_view(), self), r, final(compiler).frames_view()),
            r is Ok ==> final(compiler).frames_view().len() == old(compiler).frames_view().len(),
    {
        match self {
            Binding::Identifier(name) => {
                let ghost st = compiler.frames_view();
                let ghost k = name@;
                let r = compiler.set(name);
                proof {
                    lemma_lookup_at_frames(st, k, top_depth(st));
                }
                r
            },
            _ => vstd::pervasive::unreached(),
        }
    }
}

/// Binds the parts of the value held at `addr`, in order: each part is got by sending its
/// key to the value.
fn compile_lets(items: &Vec<(String, Binding)>, addr: usize, compiler: &mut Compiler, export: bool) -> (r: CompileIR)
    requires
        old(compiler).wf(),
        !(b_lets(old(compiler).frames_view(), addr, items@, export) is Fault),
    ensures
        final(compiler).wf(),
        matches_out(b_lets(old(compiler).frames_view(), addr, items@, export), r, final(compiler).frames_view()),
        r is Ok ==> final(compiler).frames_view().len() == old(compiler).frames_view().len(),
    decreases items@, 0nat,
{
    let ghost st0 = compiler.frames_view();
    let mut ir = IRBuilder::new();
    let mut i: usize = 0;
    proof {
        assert(items@.skip(0) == items@);
        assert(prepend(Seq::empty(), b_lets(st0, addr, items@, export)) == b_lets(st0, addr, items@, export)) by {
            match b_lets(st0, addr, items@, export) {
                Out::Done(s, c) => {
                    assert(Seq::<IRV>::empty() + c =~= c);
                },
                _ => {},
            }
        }
    }
    while i < items.len()
        invariant
            compiler.wf(),
            st0 == old(compiler).frames_view(),
            compiler.frames_view().len() == st0.len(),
            i <= items@.len(),
            !(b_lets(compiler.frames_view(), addr, items@.skip(i as int), export) is Fault),
            b_lets(st0, addr, items@, export) == prepend(ir@, b_lets(compiler.frames_view(), addr, items@.skip(i as int), export)),
        decreases items@.len() - i,
    {
        let ghost st = compiler.frames_view();
        let ghost rest = items@.skip(i as int);
        let ghost ir0 = ir@;
        assert(rest[0] == items@[i as int]);
        assert(rest.drop_first() == items@.skip(i + 1));
        let ghost head = seq![IRV::Local(addr), IRV::Send(items@[i as int].0@, 0)];
        let ghost m = match b_let(st, items@[i as int].1, export) {
            Out::Done(st1, c) => prepend(c, b_lets(st1, addr, items@.skip(i + 1), export)),
            Out::Failed(e) => Out::Failed(e),
            Out::Fault => Out::Fault,
        };
        assert(b_lets(st, addr, rest, export) == prepend(head, m));
        proof {
            lemma_prepend_assoc(ir0, head, m);
        }
        ir.push(IR::Local(addr));
        ir.push(IR::Send(string_from_str(items[i].0.as_str()), 0));
        let ghost ir1 = ir@;
        assert(ir1 =~= ir0 + head);
        assert(b_lets(st0, addr, items@, export) == prepend(ir1, m));
        let x = match items[i].1.compile_let(compiler, export) {
            Ok(x) => x,
            Err(e) => {
                assert(b_let(st, items@[i as int].1, export) == Out::<Seq<IRV>>::Failed(error_view(e)));
                assert(m == Out::<Seq<IRV>>::Failed(error_view(e)));
                assert(prepend(ir1, m) == Out::<Seq<IRV>>::Failed(error_view(e)));
                return Err(e);
            },
        };
        let ghost xv = x@;
        let ghost st1 = compiler.frames_view();
        assert(b_let(st, items@[i as int].1, export) == Out::<Seq<IRV>>::Done(st1, xv));
        ir.append(x);
        proof {
            lemma_prepend_assoc(ir1, xv, b_lets(st1, addr, items@.skip(i + 1), export));
            assert(ir@ == ir1 + xv);
        }
        i = i + 1;
    }
    proof {
        assert(items@.skip(i as int) =~= Seq::<(String, Binding)>::empty());
        assert(ir@ + Seq::<IRV>::empty() =~= ir@);
    }
    Ok(ir)
}

impl ParamResult {
    /// The code of the destructuring a parameter left to do (none for the others).
    pub fn compile(self, compiler: &mut Compiler) -> (r: CompileIR)
        requires
            old(compiler).wf(),
            !(match self {
                ParamResult::Destructure(a, items) => b_lets(old(compiler).frames_view(), a, items@, false),
                _ => Out::Done(old(compiler).frames_view(), Seq::empty()),
            } is Fault),
        ensures
            final(compiler).wf(),
            matches_out(
                match self {
                    ParamResult::Destructure(a, items) => b_lets(old(compiler).frames_view(), a, items@, false),
                    _ => Out::Done(old(compiler).frames_view(), Seq::empty()),
                },
                r,
                final(compiler).frames_view(),
            ),
            r is Ok ==> final(compiler).frames_view().len() == old(compiler).frames_view().len(),
    {
        match self {
            ParamResult::Destructure(addr, items) => compile_lets(&items, addr, compiler, false),
            _ => Ok(IRBuilder::new()),
        }
    }
}

/// Binds a handler's parameters in order, giving what each left to do.
fn compile_params(params: Vec<Binding>, compiler: &mut Compiler) -> (rs: Vec<ParamResult>)
    requires
        old(compiler).wf(),
        c_params(old(compiler).frames_view(), params@) is Some,
    ensures
        final(compiler).wf(),
        c_params(old(compiler).frames_view(), params@) == Some((final(compiler).frames_view(), rs@)),
        final(compiler).frames_view().len() == old(compiler).frames_view().len(),
{
    let mut params = params;
    let mut out: Vec<ParamResult> = Vec::new();
    let ghost all = params@;
    let ghost st0 = compiler.frames_view();
    while params.len() > 0
        invariant
            compiler.wf(),
            compiler.frames_view().len() == st0.len(),
            c_params(compiler.frames_view(), params@) is Some,
            c_params(st0, all) == Some(
                (
                    c_params(compiler.frames_view(), params@).unwrap().0,
                    out@ + c_params(compiler.frames_view(), params@).unwrap().1,
                ),
            ),
        decreases params@.len(),
    {
        let ghost before = params@;
        let ghost st = compiler.frames_view();
        let b = params.remove(0);
        assert(params@ == before.drop_first());
        let ghost bv = b;
        let r = b.compile_param(compiler);
        assert(compiler.frames_view() == replace_top(st, param_bind(st.last(), bv)));
        assert(r == param_result(bv, st.last().next_index));
        out.push(r);
        proof {
            let rest = c_params(compiler.frames_view(), params@).unwrap().1;
            assert(out@ + rest =~= out@.drop_last() + (seq![r] + rest));
        }
    }
    proof {
        assert(out@ + Seq::<ParamResult>::empty() =~= out@);
    }
    out
}

/// The code of the parameters' destructurings, in order.
fn compile_results(rs: Vec<ParamResult>, compiler: &mut Compiler) -> (r: CompileIR)
    requires
        old(compiler).wf(),
        !(c_results(old(compiler).frames_view(), rs@) is Fault),
    ensures
        final(compiler).wf(),
        matches_out(c_results(old(compiler).frames_view(), rs@), r, final(compiler).frames_view()),
        r is Ok ==> final(compiler).frames_view().len() == old(compiler).frames_view().len(),
{
    let mut rest = rs;
    let mut ir = IRBuilder::new();
    let ghost st0 = compiler.frames_view();
    let ghost all = rs@;
    proof {
        match c_results(st0, all) {
            Out::Done(s, c) => {
                assert(Seq::<IRV>::empty() + c =~= c);
            },
            _ => {},
        }
    }
    while rest.len() > 0
        invariant
            compiler.wf(),
            st0 == old(compiler).frames_view(),
            all == rs@,
            compiler.frames_view().len() == st0.len(),
            !(c_results(compiler.frames_view(), rest@) is Fault),
            c_results(st0, all) == prepend(ir@, c_results(compiler.frames_view(), rest@)),
        decreases rest@.len(),
    {
        let ghost before = rest@;
        let ghost st = compiler.frames_view();
        let ghost ir0 = ir@;
        let pr = rest.remove(0);
        assert(rest@ == before.drop_first());
        let ghost rv = pr;
        let ghost first = match rv {
            ParamResult::Destructure(a, items) => b_lets(st, a, items@, false),
            _ => Out::Done(st, Seq::empty()),
        };
        let x = match pr.compile(compiler) {
            Ok(x) => x,
            Err(e) => {
                assert(before[0] == rv);
                assert(first == Out::<Seq<IRV>>::Failed(error_view(e)));
                assert(c_results(st, before) == Out::<Seq<IRV>>::Failed(error_view(e)));
                assert(prepend(ir0, c_results(st, before)) == Out::<Seq<IRV>>::Failed(error_view(e)));
                assert(c_results(st0, all) == Out::<Seq<IRV>>::Failed(error_view(e)));
                return Err(e);
            },
        };
        let ghost xv = x@;
        assert(first == Out::<Seq<IRV>>::Done(compiler.frames_view(), xv));
        assert(before[0] == rv);
        assert(c_results(st, before) == prepend(xv, c_results(compiler.frames_view(), rest@)));
        ir.append(x);
        proof {
            lemma_prepend_assoc(ir0, xv, c_results(compiler.frames_view(), rest@));
        }
    }
    proof {
        assert(ir@ + Seq::<IRV>::empty() =~= ir@);
    }
    Ok(ir)
}

/// The parameter kinds of the results.
fn param_kinds(rs: &Vec<ParamResult>) -> (ps: Vec<Param>)
    ensures
        ps@ == result_params(rs@),
{
    let mut ps: Vec<Param> = Vec::new();
    let mut i: usize = 0;
    while i < rs.len()
        invariant
            i <= rs@.len(),
            ps@ == result_params(rs@.take(i as int)),
        decreases rs@.len() - i,
    {
        ps.push(rs[i].param());
        proof {
            assert(rs@.take(i + 1) =~= rs@.take(i as int).push(rs@[i as int]));
            assert(ps@ =~= result_params(rs@.take(i + 1)));
        }
        i = i + 1;
    }
    proof {
        assert(rs@.take(rs@.len() as int) =~= rs@);
    }
    ps
}

impl Object {
    #[verifier::type_invariant]
    spec fn sorted(self) -> bool {
        keys_sorted(keys_of(keyed(self.handlers@)))
    }

    /// The handlers, in selector order.
    pub closed spec fn handler_list(self) -> Seq<(Seq<char>, Handler)> {
        keyed(self.handlers@)
    }

    pub fn new() -> (o: Self)
        ensures
            o.handler_list() == Seq::<(Seq<char>, Handler)>::empty(),
    {
        let o = Object { handlers: Vec::new() };
        proof {
            assert(keyed(o.handlers@) =~= Seq::<(Seq<char>, Handler)>::empty());
        }
        o
    }

    /// Adds a handler; an object has at most one handler for a selector.
    pub fn add_handler(&mut self, selector: String, params: Vec<Binding>, body: Vec<Stmt>) -> (r: Parse<()>)
        requires
            lookup_sorted(old(self).handler_list(), selector@) is None,
        ensures
            r is Ok,
            final(self).handler_list() == add_sorted(
                old(self).handler_list(),
                selector@,
                Handler { params, body },
            ),
    {
        proof {
            use_type_invariant(&*self);
        }
        let mut hs = Vec::new();
        std::mem::swap(&mut hs, &mut self.handlers);
        sorted_insert(&mut hs, selector, Handler { params, body });
        self.handlers = hs;
        Ok(())
    }

    /// Adds a handler given the selector as a string slice.
    pub fn add(&mut self, selector: &str, params: Vec<Binding>, body: Vec<Stmt>)
        requires
            lookup_sorted(old(self).handler_list(), selector@) is None,
        ensures
            final(self).handler_list() == add_sorted(
                old(self).handler_list(),
                selector@,
                Handler { params, body },
            ),
    {
        let _ = self.add_handler(string_from_str(selector), params, body);
    }

    fn compile(self, compiler: &mut Compiler, self_binding: Option<&Binding>) -> (r: CompileIR)
        requires
            old(compiler).wf(),
            !(c_object(old(compiler).frames_view(), self, opt_binding(self_binding)) is Fault),
        ensures
            final(compiler).wf(),
            matches_out(c_object(old(compiler).frames_view(), self, opt_binding(self_binding)), r, final(compiler).frames_view()),
            r is Ok ==> final(compiler).frames_view().len() == old(compiler).frames_view().len(),
        decreases self, 1nat,
    {
        let (ivals, class) = compile_handlers(self.handlers, compiler, IVals::new(), Class::new(), false, self_binding)?;
        let arity = ivals.count();
        let mut out = ivals.compile()?;
        out.push(IR::object(class.rc(), arity));
        Ok(out)
    }

    fn compile_do(self, compiler: &mut Compiler) -> (r: CompileIR)
        requires
            old(compiler).wf(),
            !(c_do(old(compiler).frames_view(), self) is Fault),
        ensures
            final(compiler).wf(),
            matches_out(c_do(old(compiler).frames_view(), self), r, final(compiler).frames_view()),
            r is Ok ==> final(compiler).frames_view().len() == old(compiler).frames_view().len(),
        decreases self, 1nat,
    {
        let (ivals, class) = compile_handlers(self.handlers, compiler, IVals::new(), Class::new(), true, None)?;
        let arity = ivals.count();
        let mut out = ivals.compile()?;
        out.push(IR::DoObject(class.rc(), arity));
        Ok(out)
    }
}

/// Compiles handlers in order, each in a frame of its own that starts from the captures
/// so far, adding each to the class.
#[verifier::rlimit(100)]
#[verifier::spinoff_prover]
fn compile_handlers(
    hs: Vec<(String, Handler)>,
    compiler: &mut Compiler,
    ivals: IVals,
    class: Class,
    is_do: bool,
    self_binding: Option<&Binding>,
) -> (r: Compile<(IVals, Class)>)
    requires
        old(compiler).wf(),
        !(c_handlers(old(compiler).frames_view(), hs@, ivals.captured(), ivals.values(), class_view(class), is_do, opt_binding(self_binding)) is Fault),
    ensures
        final(compiler).wf(),
        match c_handlers(old(compiler).frames_view(), hs@, ivals.captured(), ivals.values(), class_view(class), is_do, opt_binding(self_binding)) {
            Out::Done(st, (imap, ivs, cls)) => r matches Ok((iv, c)) && iv.captured() == imap && iv.values() == ivs
                && class_view(c) == cls && final(compiler).frames_view() == st,
            Out::Failed(e) => r matches Err(e2) && error_view(e2) == e,
            Out::Fault => false,
        },
        r is Ok ==> final(compiler).frames_view().len() == old(compiler).frames_view().len(),
    decreases hs@, 0nat,
{
    let mut hs = hs;
    let mut class = class;
    if hs.len() == 0 {
        return Ok((ivals, class));
    }
    let ghost all = hs@;
    let ghost st = compiler.frames_view();
    let ghost imap = ivals.captured();
    let ghost ivs = ivals.values();
    let ghost cv = class_view(class);
    let ghost sb = opt_binding(self_binding);
    let (selector, handler) = hs.remove(0);
    assert(hs@ == all.drop_first());
    assert(all[0] == (selector, handler));
    let ghost h = handler;
    if is_do {
        compiler.do_handler(ivals);
    } else {
        compiler.handler(ivals);
    }
    let ghost st1 = compiler.frames_view();
    assert(st1 == st.push(handler_frame(is_do, imap, ivs)));
    let Handler { params, body } = handler;
    assert(params@ == h.params@ && body@ == h.body@);
    let results = compile_params(params, compiler);
    let ghost st2 = compiler.frames_view();
    let ghost rsv = results@;
    assert(c_params(st1, h.params@) == Some((st2, rsv)));
    let kinds = param_kinds(&results);
    let mut ir = match compile_results(results, compiler) {
        Ok(x) => x,
        Err(e) => {
            assert(c_results(st2, rsv) == Out::<Seq<IRV>>::Failed(error_view(e)));
            assert(c_handlers(st, all, imap, ivs, cv, is_do, sb) == Out::<Built>::Failed(error_view(e)));
            return Err(e);
        },
    };
    let ghost pc = ir@;
    let ghost st3 = compiler.frames_view();
    assert(c_results(st2, rsv) == Out::<Seq<IRV>>::Done(st3, pc));
    let ghost so = match sb {
        Some(b) => prepend(seq![IRV::SelfRef], b_let(st3, b, false)),
        None => Out::Done(st3, Seq::empty()),
    };
    match self_binding {
        Some(b) => {
            ir.push(IR::SelfRef);
            let y = match b.compile_let(compiler, false) {
                Ok(y) => y,
                Err(e) => {
                    assert(b_let(st3, *b, false) == Out::<Seq<IRV>>::Failed(error_view(e)));
                    assert(so == Out::<Seq<IRV>>::Failed(error_view(e)));
                    assert(c_handlers(st, all, imap, ivs, cv, is_do, sb) == Out::<Built>::Failed(error_view(e)));
                    return Err(e);
                },
            };
            let ghost yv = y@;
            assert(b_let(st3, *b, false) == Out::<Seq<IRV>>::Done(compiler.frames_view(), yv));
            ir.append(y);
            assert(so == Out::<Seq<IRV>>::Done(compiler.frames_view(), seq![IRV::SelfRef] + yv));
            assert(ir@ =~= pc + (seq![IRV::SelfRef] + yv));
        },
        None => {
            assert(so == Out::<Seq<IRV>>::Done(st3, Seq::empty()));
            assert(ir@ =~= pc + Seq::<IRV>::empty());
        },
    }
    let ghost st4 = compiler.frames_view();
    let ghost sc = so->Done_1;
    assert(so == Out::<Seq<IRV>>::Done(st4, sc));
    assert(ir@ == pc + sc);
    let code = match compiler.body(body) {
        Ok(c) => c,
        Err(e) => {
            assert(c_body(st4, h.body@) == Out::<Seq<IRV>>::Failed(error_view(e)));
            assert(c_handlers(st, all, imap, ivs, cv, is_do, sb) == Out::<Built>::Failed(error_view(e)));
            return Err(e);
        },
    };
    let ghost bc = code@;
    let ghost st5 = compiler.frames_view();
    assert(c_body(st4, h.body@) == Out::<Seq<IRV>>::Done(st5, bc));
    ir.append(code);
    let ghost full = ir@;
    assert(full =~= pc + sc + bc);
    let code_vec = ir.to_vec();
    class.add_handler(selector, kinds, code_vec);
    assert(class_view(class) == classv_add(cv, all[0].0@, HandlerV { params: result_params(rsv), body: pc + sc + bc }));
    let ivals = compiler.end_handler();
    assert(c_handlers(st, all, imap, ivs, cv, is_do, sb) == c_handlers(
        st5.drop_last(),
        all.drop_first(),
        st5.last().ival_map,
        st5.last().ivals,
        class_view(class),
        is_do,
        sb,
    ));
    compile_handlers(hs, compiler, ivals, class, is_do, self_binding)
}

/// The do-block handler `sel` with no parameters and the given body, added to the class.
fn compile_do_body(sel: &str, body: Vec<Stmt>, compiler: &mut Compiler, ivals: IVals, class: Class) -> (r: Compile<(IVals, Class)>)
    requires
        old(compiler).wf(),
        !(c_do_body(old(compiler).frames_view(), ivals.captured(), ivals.values(), class_view(class), sel@, body@) is Fault),
    ensures
        final(compiler).wf(),
        match c_do_body(old(compiler).frames_view(), ivals.captured(), ivals.values(), class_view(class), sel@, body@) {
            Out::Done(st, (imap, ivs, cls)) => r matches Ok((iv, c)) && iv.captured() == imap && iv.values() == ivs
                && class_view(c) == cls && final(compiler).frames_view() == st,
            Out::Failed(e) => r matches Err(e2) && error_view(e2) == e,
            Out::Fault => false,
        },
        r is Ok ==> final(compiler).frames_view().len() == old(compiler).frames_view().len(),
    decreases body@, 2nat,
{
    let mut class = class;
    compiler.do_handler(ivals);
    let code = compiler.body(body)?;
    let none: Vec<Param> = Vec::new();
    proof {
        assert(none@ =~= Seq::<Param>::empty());
    }
    class.add_handler(string_from_str(sel), none, code.to_vec());
    let ivals = compiler.end_handler();
    Ok((ivals, class))
}

/// The do-block a failed try-send runs instead: one handler `` whose body is `e`.
fn compile_do_expr(e: Expr, compiler: &mut Compiler) -> (r: CompileIR)
    requires
        old(compiler).wf(),
        !(c_do_expr(old(compiler).frames_view(), e) is Fault),
    ensures
        final(compiler).wf(),
        matches_out(c_do_expr(old(compiler).frames_view(), e), r, final(compiler).frames_view()),
        r is Ok ==> final(compiler).frames_view().len() == old(compiler).frames_view().len(),
    decreases e, 2nat,
{
    let ghost st = compiler.frames_view();
    let mut class = Class::new();
    let iv0 = IVals::new();
    compiler.do_handler(iv0);
    let ghost st1 = compiler.frames_view();
    assert(st1 == st.push(handler_frame(true, Map::empty(), Seq::empty())));
    let code = match e.compile(compiler, None) {
        Ok(c) => c,
        Err(err) => {
            assert(c_expr(st1, e, None) == Out::<Seq<IRV>>::Failed(error_view(err)));
            return Err(err);
        },
    };
    let ghost cv = code@;
    let ghost st2 = compiler.frames_view();
    assert(c_expr(st1, e, None) == Out::<Seq<IRV>>::Done(st2, cv));
    let none: Vec<Param> = Vec::new();
    proof {
        assert(none@ =~= Seq::<Param>::empty());
        reveal_strlit("");
    }
    let sel = string_from_str("");
    assert(sel@ =~= Seq::<char>::empty());
    class.add_handler(sel, none, code.to_vec());
    let ivals = compiler.end_handler();
    let arity = ivals.count();
    let mut out = ivals.compile()?;
    let rc = class.rc();
    out.push(IR::DoObject(rc, arity));
    Ok(out)
}

impl Expr {
    fn compile(self, compiler: &mut Compiler, self_binding: Option<&Binding>) -> (r: CompileIR)
        requires
            old(compiler).wf(),
            !(c_expr(old(compiler).frames_view(), self, opt_binding(self_binding)) is Fault),
        ensures
            final(compiler).wf(),
            matches_out(c_expr(old(compiler).frames_view(), self, opt_binding(self_binding)), r, final(compiler).frames_view()),
            r is Ok ==> final(compiler).frames_view().len() == old(compiler).frames_view().len(),
        decreases self, 1nat,
    {
        match self {
            Expr::Unit => Ok(one(IR::unit())),
            Expr::SelfRef => Ok(one(IR::SelfRef)),
            Expr::Bool(b) => Ok(one(IR::bool(b))),
            Expr::Integer(i) => Ok(one(IR::integer(i))),
            Expr::String(s) => Ok(one(IR::string(s))),
            Expr::Identifier(name) => compiler.identifier(name),
            Expr::Send(selector, target, args) => compile_send(selector, target, args, compiler),
            Expr::TrySend(selector, target, args, or_else) => compile_try_send(selector, target, args, or_else, compiler),
            Expr::Object(obj) => obj.compile(compiler, self_binding),
            Expr::Frame(selector, pairs) => compile_frame(selector, pairs, compiler),
            Expr::If(cond, if_true, if_false) => compile_if(cond, if_true, if_false, compiler),
            Expr::Paren(body) => compile_paren(body, compiler),
            Expr::VarArg(_) => vstd::pervasive::unreached(),
            Expr::DoArg(_) => vstd::pervasive::unreached(),
        }
    }

    fn compile_arg(self, compiler: &mut Compiler) -> (r: CompileIR)
        requires
            old(compiler).wf(),
            !(c_arg(old(compiler).frames_view(), self) is Fault),
        ensures
            final(compiler).wf(),
            matches_out(c_arg(old(compiler).frames_view(), self), r, final(compiler).frames_view()),
            r is Ok ==> final(compiler).frames_view().len() == old(compiler).frames_view().len(),
        decreases self, 2nat,
    {
        match self {
            Expr::VarArg(name) => compiler.var_arg(name),
            Expr::DoArg(obj) => obj.compile_do(compiler),
            Expr::Identifier(name) => compiler.arg_identifier(name),
            _ => self.compile(compiler, None),
        }
    }

    fn compile_target(self, compiler: &mut Compiler) -> (r: CompileIR)
        requires
            old(compiler).wf(),
            !(c_target(old(compiler).frames_view(), self) is Fault),
        ensures
            final(compiler).wf(),
            matches_out(c_target(old(compiler).frames_view(), self), r, final(compiler).frames_view()),
            r is Ok ==> final(compiler).frames_view().len() == old(compiler).frames_view().len(),
        decreases self, 2nat,
    {
        match self {
            Expr::DoArg(obj) => obj.compile_do(compiler),
            Expr::Identifier(name) => compiler.target_identifier(name),
            _ => self.compile(compiler, None),
        }
    }
}

/// Code of one instruction.
fn one(ir: IR) -> (b: IRBuilder)
    ensures
        b@ == seq![ir_view(ir)],
{
    let v = vec![ir];
    proof {
        lemma_body_view(v@);
        assert(body_view(v@) =~= seq![ir_view(ir)]);
    }
    IRBuilder::from(v)
}

fn compile_args(args: Vec<Expr>, compiler: &mut Compiler) -> (r: CompileIR)
    requires
        old(compiler).wf(),
        !(c_args(old(compiler).frames_view(), args@) is Fault),
    ensures
        final(compiler).wf(),
        matches_out(c_args(old(compiler).frames_view(), args@), r, final(compiler).frames_view()),
        r is Ok ==> final(compiler).frames_view().len() == old(compiler).frames_view().len(),
    decreases args@, 0nat,
{
    let mut args = args;
    if args.len() == 0 {
        return Ok(IRBuilder::new());
    }
    let ghost all = args@;
    let first = args.remove(0);
    assert(args@ == all.drop_first());
    let mut ir = first.compile_arg(compiler)?;
    let rest = compile_args(args, compiler)?;
    ir.append(rest);
    Ok(ir)
}

fn compile_pairs(pairs: Vec<(String, Expr)>, compiler: &mut Compiler) -> (r: CompileIR)
    requires
        old(compiler).wf(),
        !(c_pairs(old(compiler).frames_view(), pairs@) is Fault),
    ensures
        final(compiler).wf(),
        matches_out(c_pairs(old(compiler).frames_view(), pairs@), r, final(compiler).frames_view()),
        r is Ok ==> final(compiler).frames_view().len() == old(compiler).frames_view().len(),
    decreases pairs@, 0nat,
{
    let mut pairs = pairs;
    if pairs.len() == 0 {
        return Ok(IRBuilder::new());
    }
    let ghost all = pairs@;
    let (_, first) = pairs.remove(0);
    assert(pairs@ == all.drop_first());
    let mut ir = first.compile_arg(compiler)?;
    let rest = compile_pairs(pairs, compiler)?;
    ir.append(rest);
    Ok(ir)
}

fn compile_stmts(stmts: Vec<Stmt>, compiler: &mut Compiler) -> (r: CompileIR)
    requires
        old(compiler).wf(),
        !(c_stmts(old(compiler).frames_view(), stmts@) is Fault),
    ensures
        final(compiler).wf(),
        matches_out(c_stmts(old(compiler).frames_view(), stmts@), r, final(compiler).frames_view()),
        r is Ok ==> final(compiler).frames_view().len() == old(compiler).frames_view().len(),
    decreases stmts@, 0nat,
{
    let mut stmts = stmts;
    if stmts.len() == 0 {
        return Ok(IRBuilder::new());
    }
    let ghost all = stmts@;
    let first = stmts.remove(0);
    assert(stmts@ == all.drop_first());
    if stmts.len() == 0 {
        return first.compile_last(compiler);
    }
    let mut ir = first.compile_most(compiler)?;
    let rest = compile_stmts(stmts, compiler)?;
    ir.append(rest);
    Ok(ir)
}

impl Stmt {
    fn compile_base(self, compiler: &mut Compiler) -> (r: CompileIR)
        requires
            old(compiler).wf(),
            !(c_stmt(old(compiler).frames_view(), self) is Fault),
        ensures
            final(compiler).wf(),
            matches_out(c_stmt(old(compiler).frames_view(), self), r, final(compiler).frames_view()),
            r is Ok ==> final(compiler).frames_view().len() == old(compiler).frames_view().len(),
        decreases self, 0nat,
    {
        match self {
            Stmt::Expr(expr) => expr.compile(compiler, None),
            Stmt::Let(binding, expr, export) => {
                let mut ir = expr.compile(compiler, Some(&binding))?;
                let y = binding.compile_let(compiler, export)?;
                ir.append(y);
                Ok(ir)
            },
            Stmt::Var(binding, expr) => {
                let mut ir = expr.compile(compiler, None)?;
                let y = binding.compile_var(compiler)?;
                ir.append(y);
                Ok(ir)
            },
            Stmt::Assign(binding, expr) => {
                let mut ir = expr.compile(compiler, None)?;
                let y = binding.compile_set(compiler)?;
                ir.append(y);
                Ok(ir)
            },
            Stmt::Import(binding, name, export) => {
                let mut ir = one(IR::Module(name));
                let y = binding.compile_let(compiler, export)?;
                ir.append(y);
                Ok(ir)
            },
            Stmt::Return(expr) => {
                let mut ir = expr.compile(compiler, None)?;
                ir.push(IR::Return);
                Ok(ir)
            },
        }
    }

    /// A statement that is not the last: an expression's value is dropped.
    pub fn compile_most(self, compiler: &mut Compiler) -> (r: CompileIR)
        requires
            old(compiler).wf(),
            !(c_most(old(compiler).frames_view(), self) is Fault),
        ensures
            final(compiler).wf(),
            matches_out(c_most(old(compiler).frames_view(), self), r, final(compiler).frames_view()),
            r is Ok ==> final(compiler).frames_view().len() == old(compiler).frames_view().len(),
        decreases self, 1nat,
    {
        match self {
            Stmt::Expr(_) => {
                let mut ir = self.compile_base(compiler)?;
                ir.push(IR::Drop);
                Ok(ir)
            },
            _ => self.compile_base(compiler),
        }
    }

    /// The last statement: one that leaves no value leaves unit.
    pub fn compile_last(self, compiler: &mut Compiler) -> (r: CompileIR)
        requires
            old(compiler).wf(),
            !(c_last(old(compiler).frames_view(), self) is Fault),
        ensures
            final(compiler).wf(),
            matches_out(c_last(old(compiler).frames_view(), self), r, final(compiler).frames_view()),
            r is Ok ==> final(compiler).frames_view().len() == old(compiler).frames_view().len(),
        decreases self, 1nat,
    {
        match self {
            Stmt::Expr(_) => self.compile_base(compiler),
            _ => {
                let mut ir = self.compile_base(compiler)?;
                ir.push(IR::unit());
                Ok(ir)
            },
        }
    }
}

impl Compiler {
    /// Compiles a body: the statements in order, all but the last dropping their value;
    /// the last leaves the body's value (unit when the body is empty or ends in a
    /// statement that leaves none).
    pub fn body(&mut self, body: Vec<Stmt>) -> (r: CompileIR)
        requires
            old(self).wf(),
            !(c_body(old(self).frames_view(), body@) is Fault),
        ensures
            final(self).wf(),
            matches_out(c_body(old(self).frames_view(), body@), r, final(self).frames_view()),
            r is Ok ==> final(self).frames_view().len() == old(self).frames_view().len(),
        decreases body@, 1nat,
    {
        if body.len() == 0 {
            return Ok(one(IR::unit()));
        }
        compile_stmts(body, self)
    }

    /// Compiles a program (its top-level statements).
    pub fn program(program: Vec<Stmt>) -> (r: Compile<Vec<IR>>)
        requires
            spec_program(program@) is Some,
        ensures
            match spec_program(program@).unwrap() {
                Ok(ir) => r matches Ok(v) && body_view(v@) == ir,
                Err(e) => r matches Err(e2) && error_view(e2) == e,
            },
    {
        let mut compiler = Compiler::new();
        proof {
            assert(compiler.frames_view() == initial_frames());
        }
        let out = compiler.body(program)?;
        Ok(out.to_vec())
    }

    /// Compiles a module: its top-level statements, then the object of its exports (in
    /// some order of the exported names, which is not fixed), which is its value.
    pub fn module(module: Vec<Stmt>) -> (r: Compile<Vec<IR>>)
        requires
            !(c_body(initial_frames(), module@) is Fault),
        ensures
            match c_body(initial_frames(), module@) {
                Out::Done(st, code) => r matches Ok(v) && exists|es: Seq<(String, Address)>| entries_map(es)
                    == st[0].exports && keys_distinct(es) && body_view(v@) == code + #[trigger] exports_code(es),
                Out::Failed(e) => r matches Err(e2) && error_view(e2) == e,
                Out::Fault => false,
            },
    {
        let mut compiler = Compiler::new();
        proof {
            assert(compiler.frames_view() == initial_frames());
        }
        let mut out = compiler.body(module)?;
        let ghost code = out@;
        let ghost st = compiler.frames_view();
        let ex = compiler.compile_exports();
        out.append(ex);
        let v = out.to_vec();
        proof {
            let es = choose|es: Seq<(String, Address)>| entries_map(es) == st[0].exports && keys_distinct(es)
                && #[trigger] exports_code(es) == ex@;
            assert(body_view(v@) == code + exports_code(es));
        }
        Ok(v)
    }
}

fn compile_send(selector: String, target: Box<Expr>, args: Vec<Expr>, compiler: &mut Compiler) -> (r: CompileIR)
    requires
        old(compiler).wf(),
        !(c_expr(old(compiler).frames_view(), Expr::Send(selector, target, args), None) is Fault),
    ensures
        final(compiler).wf(),
        matches_out(c_expr(old(compiler).frames_view(), Expr::Send(selector, target, args), None), r, final(compiler).frames_view()),
        r is Ok ==> final(compiler).frames_view().len() == old(compiler).frames_view().len(),
    decreases Expr::Send(selector, target, args), 0nat,
{
    let ghost st = compiler.frames_view();
    let ghost e0 = Expr::Send(selector, target, args);
    let ghost av = args@;
    let ghost tv = *target;
    let ghost sel = selector@;
    let arity = args.len();
    let mut ir = match compile_args(args, compiler) {
        Ok(x) => x,
        Err(e) => {
            assert(c_args(st, av) == Out::<Seq<IRV>>::Failed(error_view(e)));
            assert(c_expr(st, e0, None) == Out::<Seq<IRV>>::Failed(error_view(e)));
            return Err(e);
        },
    };
    let ghost a = ir@;
    let ghost st1 = compiler.frames_view();
    assert(c_args(st, av) == Out::<Seq<IRV>>::Done(st1, a));
    let t = match (*target).compile_target(compiler) {
        Ok(x) => x,
        Err(e) => {
            assert(c_target(st1, tv) == Out::<Seq<IRV>>::Failed(error_view(e)));
            assert(c_expr(st, e0, None) == Out::<Seq<IRV>>::Failed(error_view(e)));
            return Err(e);
        },
    };
    let ghost t1 = t@;
    assert(c_target(st1, tv) == Out::<Seq<IRV>>::Done(compiler.frames_view(), t1));
    ir.append(t);
    ir.push(IR::Send(selector, arity));
    assert(ir@ =~= a + t1 + seq![IRV::Send(sel, av.len() as usize)]);
    assert(c_expr(st, e0, None) == Out::<Seq<IRV>>::Done(compiler.frames_view(), ir@));
    Ok(ir)
}

fn compile_try_send(selector: String, target: Box<Expr>, args: Vec<Expr>, or_else: Box<Expr>, compiler: &mut Compiler) -> (r: CompileIR)
    requires
        old(compiler).wf(),
        !(c_expr(old(compiler).frames_view(), Expr::TrySend(selector, target, args, or_else), None) is Fault),
    ensures
        final(compiler).wf(),
        matches_out(c_expr(old(compiler).frames_view(), Expr::TrySend(selector, target, args, or_else), None), r, final(compiler).frames_view()),
        r is Ok ==> final(compiler).frames_view().len() == old(compiler).frames_view().len(),
    decreases Expr::TrySend(selector, target, args, or_else), 0nat,
{
    let ghost st = compiler.frames_view();
    let ghost e0 = Expr::TrySend(selector, target, args, or_else);
    let ghost av = args@;
    let ghost tv = *target;
    let ghost ov = *or_else;
    let ghost sel = selector@;
    let arity = args.len();
    let mut ir = match compile_args(args, compiler) {
        Ok(x) => x,
        Err(e) => {
            assert(c_args(st, av) == Out::<Seq<IRV>>::Failed(error_view(e)));
            assert(c_expr(st, e0, None) == Out::<Seq<IRV>>::Failed(error_view(e)));
            return Err(e);
        },
    };
    let ghost a = ir@;
    let ghost st1 = compiler.frames_view();
    assert(c_args(st, av) == Out::<Seq<IRV>>::Done(st1, a));
    let d = match compile_do_expr(*or_else, compiler) {
        Ok(x) => x,
        Err(e) => {
            assert(c_do_expr(st1, ov) == Out::<Seq<IRV>>::Failed(error_view(e)));
            assert(c_expr(st, e0, None) == Out::<Seq<IRV>>::Failed(error_view(e)));
            return Err(e);
        },
    };
    let ghost dv = d@;
    let ghost st2 = compiler.frames_view();
    assert(c_do_expr(st1, ov) == Out::<Seq<IRV>>::Done(st2, dv));
    ir.append(d);
    let t = match (*target).compile_target(compiler) {
        Ok(x) => x,
        Err(e) => {
            assert(c_target(st2, tv) == Out::<Seq<IRV>>::Failed(error_view(e)));
            assert(c_expr(st, e0, None) == Out::<Seq<IRV>>::Failed(error_view(e)));
            return Err(e);
        },
    };
    let ghost t1 = t@;
    assert(c_target(st2, tv) == Out::<Seq<IRV>>::Done(compiler.frames_view(), t1));
    ir.append(t);
    ir.push(IR::TrySend(selector, arity));
    assert(ir@ =~= a + dv + t1 + seq![IRV::TrySend(sel, av.len() as usize)]);
    assert(c_expr(st, e0, None) == Out::<Seq<IRV>>::Done(compiler.frames_view(), ir@));
    Ok(ir)
}

fn compile_frame(selector: String, pairs: Vec<(String, Expr)>, compiler: &mut Compiler) -> (r: CompileIR)
    requires
        old(compiler).wf(),
        !(c_expr(old(compiler).frames_view(), Expr::Frame(selector, pairs), None) is Fault),
    ensures
        final(compiler).wf(),
        matches_out(c_expr(old(compiler).frames_view(), Expr::Frame(selector, pairs), None), r, final(compiler).frames_view()),
        r is Ok ==> final(compiler).frames_view().len() == old(compiler).frames_view().len(),
    decreases Expr::Frame(selector, pairs), 0nat,
{
    let ghost keys = pair_keys(pairs@);
    let ghost sel = selector@;
    let class = frame_class(selector, &pairs);
    let arity = pairs.len();
    let mut ir = compile_pairs(pairs, compiler)?;
    ir.push(IR::object(class, arity));
    Ok(ir)
}

fn compile_if(cond: Box<Expr>, if_true: Vec<Stmt>, if_false: Vec<Stmt>, compiler: &mut Compiler) -> (r: CompileIR)
    requires
        old(compiler).wf(),
        !(c_expr(old(compiler).frames_view(), Expr::If(cond, if_true, if_false), None) is Fault),
    ensures
        final(compiler).wf(),
        matches_out(c_expr(old(compiler).frames_view(), Expr::If(cond, if_true, if_false), None), r, final(compiler).frames_view()),
        r is Ok ==> final(compiler).frames_view().len() == old(compiler).frames_view().len(),
    decreases Expr::If(cond, if_true, if_false), 0nat,
{
    let ghost st = compiler.frames_view();
    let ghost e0 = Expr::If(cond, if_true, if_false);
    let ghost cv = *cond;
    let ghost tb = if_true@;
    let ghost fb = if_false@;
    proof {
        reveal_strlit("false");
        reveal_strlit("true");
        reveal_strlit(":");
        assert("false"@ =~= seq!['f', 'a', 'l', 's', 'e']);
        assert("true"@ =~= seq!['t', 'r', 'u', 'e']);
        assert(":"@ =~= seq![':']);
    }
    let iv0 = IVals::new();
    let c0 = Class::new();
    let (ivals, class) = match compile_do_body("false", if_false, compiler, iv0, c0) {
        Ok(x) => x,
        Err(e) => {
            assert(c_expr(st, e0, None) == Out::<Seq<IRV>>::Failed(error_view(e)));
            return Err(e);
        },
    };
    let ghost st1 = compiler.frames_view();
    assert(c_do_body(st, Map::empty(), Seq::empty(), classv_empty(), seq!['f', 'a', 'l', 's', 'e'], fb)
        == Out::<Built>::Done(st1, (ivals.captured(), ivals.values(), class_view(class))));
    let (ivals, class) = match compile_do_body("true", if_true, compiler, ivals, class) {
        Ok(x) => x,
        Err(e) => {
            assert(c_expr(st, e0, None) == Out::<Seq<IRV>>::Failed(error_view(e)));
            return Err(e);
        },
    };
    let ghost st2 = compiler.frames_view();
    let ghost v2 = ivals.values();
    let ghost k2 = class_view(class);
    let arity = ivals.count();
    let mut ir = ivals.compile()?;
    let rc = class.rc();
    ir.push(IR::DoObject(rc, arity));
    let ghost dv = ir@;
    assert(dv == ivals_code(v2).push(IRV::DoObject(k2, v2.len() as usize)));
    let t = match (*cond).compile_target(compiler) {
        Ok(x) => x,
        Err(e) => {
            assert(c_target(st2, cv) == Out::<Seq<IRV>>::Failed(error_view(e)));
            assert(c_expr(st, e0, None) == Out::<Seq<IRV>>::Failed(error_view(e)));
            return Err(e);
        },
    };
    let ghost t1 = t@;
    assert(c_target(st2, cv) == Out::<Seq<IRV>>::Done(compiler.frames_view(), t1));
    ir.append(t);
    ir.push(IR::send(":", 1));
    assert(ir@ =~= dv + t1 + seq![IRV::Send(seq![':'], 1)]);
    assert(c_expr(st, e0, None) == Out::<Seq<IRV>>::Done(compiler.frames_view(), ir@));
    Ok(ir)
}

fn compile_paren(body: Vec<Stmt>, compiler: &mut Compiler) -> (r: CompileIR)
    requires
        old(compiler).wf(),
        !(c_expr(old(compiler).frames_view(), Expr::Paren(body), None) is Fault),
    ensures
        final(compiler).wf(),
        matches_out(c_expr(old(compiler).frames_view(), Expr::Paren(body), None), r, final(compiler).frames_view()),
        r is Ok ==> final(compiler).frames_view().len() == old(compiler).frames_view().len(),
    decreases Expr::Paren(body), 0nat,
{
    if body.len() == 0 {
        return Ok(one(IR::unit()));
    }
    let single = body.len() == 1 && match &body[0] {
        Stmt::Expr(_) => true,
        _ => false,
    };
    if single {
        let mut body = body;
        let ghost b0 = body@;
        let first = body.remove(0);
        assert(first == b0[0]);
        return match first {
            Stmt::Expr(e) => e.compile(compiler, None),
            _ => vstd::pervasive::unreached(),
        };
    }
    let ghost st = compiler.frames_view();
    let ghost bv = body@;
    let ghost e0 = Expr::Paren(body);
    proof {
        reveal_strlit("");
        assert(""@ =~= Seq::<char>::empty());
    }
    let iv0 = IVals::new();
    let c0 = Class::new();
    let (ivals, class) = match compile_do_body("", body, compiler, iv0, c0) {
        Ok(x) => x,
        Err(e) => {
            assert(c_expr(st, e0, None) == Out::<Seq<IRV>>::Failed(error_view(e)));
            return Err(e);
        },
    };
    let ghost v1 = ivals.values();
    let ghost k1 = class_view(class);
    let arity = ivals.count();
    let mut ir = ivals.compile()?;
    ir.push(IR::DoObject(class.rc(), arity));
    ir.push(IR::send("", 0));
    assert(ir@ =~= ivals_code(v1).push(IRV::DoObject(k1, v1.len() as usize)) + seq![IRV::Send(Seq::empty(), 0)]);
    assert(c_expr(st, e0, None) == Out::<Seq<IRV>>::Done(compiler.frames_view(), ir@));
    Ok(ir)
}

/// A statement that is not the last compiles as its own code, with `Drop` after for an
/// expression statement (whose value goes unused); a last statement compiles as its own
/// code, with unit after for a statement that leaves no value.
pub proof fn law_statement_values(st: Seq<FrameV>, s: Stmt)
    ensures
        s is Expr ==> c_most(st, s) == match c_stmt(st, s) {
            Out::Done(st1, x) => Out::Done(st1, x.push(IRV::Drop)),
            o => o,
        } && c_last(st, s) == c_stmt(st, s),
        !(s is Expr) ==> c_most(st, s) == c_stmt(st, s) && c_last(st, s) == match c_stmt(st, s) {
            Out::Done(st1, x) => Out::Done(st1, x.push(IRV::Constant(ValueV::Unit))),
            o => o,
        },
{
}

/// Integer literal arguments compile to pushes of those integers in the order they are
/// written, first argument first, so a handler's first parameter receives the first
/// argument; they leave the compiler frames as they were.
pub proof fn law_integer_args_in_order(st: Seq<FrameV>, args: Seq<Expr>, xs: Seq<i64>)
    requires
        args.len() == xs.len(),
        forall|i: int| 0 <= i < args.len() ==> #[trigger] args[i] == Expr::Integer(xs[i]),
    ensures
        c_args(st, args) == Out::Done(st, xs.map_values(|x: i64| IRV::Constant(ValueV::Integer(x)))),
    decreases args.len(),
{
    if args.len() == 0 {
        assert(xs.map_values(|x: i64| IRV::Constant(ValueV::Integer(x))) =~= Seq::<IRV>::empty());
    } else {
        assert(args[0] == Expr::Integer(xs[0]));
        assert(c_arg(st, args[0]) == Out::Done(st, seq![IRV::Constant(ValueV::Integer(xs[0]))]));
        assert forall|i: int| 0 <= i < args.drop_first().len() implies #[trigger] args.drop_first()[i]
            == Expr::Integer(xs.drop_first()[i]) by {
            assert(args[i + 1] == Expr::Integer(xs[i + 1]));
        }
        law_integer_args_in_order(st, args.drop_first(), xs.drop_first());
        assert(seq![IRV::Constant(ValueV::Integer(xs[0]))] + xs.drop_first().map_values(
            |x: i64| IRV::Constant(ValueV::Integer(x)),
        ) =~= xs.map_values(|x: i64| IRV::Constant(ValueV::Integer(x))));
    }
}

/// A send with integer literal arguments to an integer target compiles to the arguments
/// pushed in order, then the target, then the send with its argument count.
pub proof fn law_send_code_order(st: Seq<FrameV>, sel: String, target: i64, args: Vec<Expr>, xs: Seq<i64>)
    requires
        args@.len() == xs.len(),
        forall|i: int| 0 <= i < args@.len() ==> #[trigger] args@[i] == Expr::Integer(xs[i]),
    ensures
        c_expr(st, Expr::Send(sel, Box::new(Expr::Integer(target)), args), None) == Out::Done(
            st,
            xs.map_values(|x: i64| IRV::Constant(ValueV::Integer(x))) + seq![
                IRV::Constant(ValueV::Integer(target)),
                IRV::Send(sel@, xs.len() as usize),
            ],
        ),
{
    law_integer_args_in_order(st, args@, xs);
    let code = xs.map_values(|x: i64| IRV::Constant(ValueV::Integer(x)));
    assert(c_target(st, Expr::Integer(target)) == Out::Done(st, seq![IRV::Constant(ValueV::Integer(target))]));
    assert(code + seq![IRV::Constant(ValueV::Integer(target))] + seq![IRV::Send(sel@, xs.len() as usize)]
        =~= code + seq![IRV::Constant(ValueV::Integer(target)), IRV::Send(sel@, xs.len() as usize)]);
}

/// Whether `code` holds the integers `xs` at its even places and `Drop` at its odd ones.
pub open spec fn interleaved_drops(code: Seq<IRV>, xs: Seq<i64>) -> bool {
    &&& code.len() == 2 * xs.len() - 1
    &&& forall|k: int| 0 <= k < code.len() && k % 2 == 0 ==> #[trigger] code[k] == IRV::Constant(ValueV::Integer(xs[k / 2]))
    &&& forall|k: int| 0 <= k < code.len() && k % 2 == 1 ==> #[trigger] code[k] == IRV::Drop
}

proof fn lemma_interleaved_cons(rest: Seq<IRV>, xs: Seq<i64>)
    requires
        xs.len() >= 2,
        interleaved_drops(rest, xs.drop_first()),
    ensures
        interleaved_drops(seq![IRV::Constant(ValueV::Integer(xs[0])), IRV::Drop] + rest, xs),
{
    let code = seq![IRV::Constant(ValueV::Integer(xs[0])), IRV::Drop] + rest;
    assert forall|k: int| 0 <= k < code.len() && k % 2 == 0 implies #[trigger] code[k] == IRV::Constant(ValueV::Integer(xs[k / 2])) by {
        if k >= 2 {
            assert(code[k] == rest[k - 2]);
            assert((k - 2) % 2 == 0 && (k - 2) / 2 == k / 2 - 1);
            assert(rest[k - 2] == IRV::Constant(ValueV::Integer(xs.drop_first()[(k - 2) / 2])));
        }
    }
    assert forall|k: int| 0 <= k < code.len() && k % 2 == 1 implies #[trigger] code[k] == IRV::Drop by {
        if k >= 2 {
            assert(code[k] == rest[k - 2]);
            assert((k - 2) % 2 == 1);
        }
    }
}

/// Statements compile in the order they are written, each but the last dropping its
/// value: a body of integer literal statements `x0 ... xn` compiles to
/// `x0 Drop x1 Drop ... xn` and leaves the compiler frames as they were.
pub proof fn law_statements_in_order(st: Seq<FrameV>, ss: Seq<Stmt>, xs: Seq<i64>)
    requires
        xs.len() >= 1,
        ss.len() == xs.len(),
        forall|i: int| 0 <= i < ss.len() ==> #[trigger] ss[i] == Stmt::Expr(Expr::Integer(xs[i])),
    ensures
        c_body(st, ss) matches Out::Done(st2, code) && st2 == st && interleaved_drops(code, xs),
    decreases xs.len(),
{
    let s0 = Stmt::Expr(Expr::Integer(xs[0]));
    assert(ss[0] == s0);
    assert(c_stmt(st, s0) == Out::Done(st, seq![IRV::Constant(ValueV::Integer(xs[0]))]));
    if xs.len() == 1 {
        assert(interleaved_drops(seq![IRV::Constant(ValueV::Integer(xs[0]))], xs));
    } else {
        assert(seq![IRV::Constant(ValueV::Integer(xs[0]))].push(IRV::Drop)
            =~= seq![IRV::Constant(ValueV::Integer(xs[0])), IRV::Drop]);
        assert(c_most(st, s0) == Out::Done(st, seq![IRV::Constant(ValueV::Integer(xs[0])), IRV::Drop]));
        let tail = ss.drop_first();
        assert forall|i: int| 0 <= i < tail.len() implies #[trigger] tail[i]
            == Stmt::Expr(Expr::Integer(xs.drop_first()[i])) by {
            assert(ss[i + 1] == Stmt::Expr(Expr::Integer(xs[i + 1])));
        }
        law_statements_in_order(st, tail, xs.drop_first());
        let rest = c_body(st, tail)->Done_1;
        lemma_interleaved_cons(rest, xs);
    }
}

} // verus!
