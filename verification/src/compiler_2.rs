use std::rc::Rc;
use vstd::prelude::*;

use crate::assoc::Assoc;
use crate::parser_2::Parse;
use crate::runtime_2::{
    body_view, class_view, classv_add, classv_empty, lemma_body_view, lemma_body_view_concat,
    lemma_body_view_push, Address, Class, ClassV, HandlerV, IRV, Index, Param, Selector, IR,
};
use crate::runtime_2::{add_sorted, keys_of, keys_sorted, lookup_sorted};
use crate::sorted::{
    has_key, keyed, lemma_add_sorted_map, lemma_lookup_map_entries, map_entries, sorted_insert,
};

verus! {

/// Errors the compiler reports.
#[derive(Debug, Clone, PartialEq)]
pub enum CompileError {
    UnknownIdentifier(String),
    InvalidSet(String),
    InvalidVarReference(String),
    InvalidVarArg(String),
    InvalidDoReference(String),
}

pub type Compile<T> = Result<T, CompileError>;

pub type CompileIR = Compile<IRBuilder>;

/// The view of a compile error.
pub enum CompileErrorV {
    UnknownIdentifier(Seq<char>),
    InvalidSet(Seq<char>),
    InvalidVarReference(Seq<char>),
    InvalidVarArg(Seq<char>),
    InvalidDoReference(Seq<char>),
}

pub open spec fn error_view(e: CompileError) -> CompileErrorV {
    match e {
        CompileError::UnknownIdentifier(s) => CompileErrorV::UnknownIdentifier(s@),
        CompileError::InvalidSet(s) => CompileErrorV::InvalidSet(s@),
        CompileError::InvalidVarReference(s) => CompileErrorV::InvalidVarReference(s@),
        CompileError::InvalidVarArg(s) => CompileErrorV::InvalidVarArg(s@),
        CompileError::InvalidDoReference(s) => CompileErrorV::InvalidDoReference(s@),
    }
}

/// A growing list of instructions.
pub struct IRBuilder {
    ir: Vec<IR>,
}

impl View for IRBuilder {
    type V = Seq<IRV>;

    closed spec fn view(&self) -> Seq<IRV> {
        body_view(self.ir@)
    }
}

impl IRBuilder {
    fn new() -> (b: Self)
        ensures
            b@ == Seq::<IRV>::empty(),
    {
        let b = IRBuilder { ir: Vec::new() };
        proof {
            lemma_body_view(b.ir@);
        }
        b
    }

    fn from(ir: Vec<IR>) -> (b: Self)
        ensures
            b@ == body_view(ir@),
    {
        IRBuilder { ir }
    }

    fn push(&mut self, item: IR)
        ensures
            final(self)@ == old(self)@.push(crate::runtime_2::ir_view(item)),
    {
        proof {
            lemma_body_view_push(self.ir@, item);
        }
        self.ir.push(item);
    }

    fn append(&mut self, other: IRBuilder)
        ensures
            final(self)@ == old(self)@ + other@,
    {
        let mut other_ir = other.to_vec();
        proof {
            lemma_body_view_concat(self.ir@, other_ir@);
        }
        self.ir.append(&mut other_ir);
    }

    fn to_vec(self) -> (v: Vec<IR>)
        ensures
            body_view(v@) == self@,
    {
        self.ir
    }
}

/// Where a name's value lives: a local slot, a local var cell, a local do-block, or the
/// same three kinds held as instance values of the enclosing object.
#[derive(Debug, Clone, Copy, PartialEq)]
pub enum BindingRecord {
    Local(Address),
    Var(Address),
    Do(Address),
    IVal(Index),
    VarIVal(Index),
    DoIVal(Index),
}

/// The instruction that copies the bound value into an object's instance values.
pub open spec fn rec_ival(r: BindingRecord) -> IRV {
    match r {
        BindingRecord::Local(addr) => IRV::Local(addr),
        BindingRecord::Var(addr) => IRV::Local(addr),
        BindingRecord::Do(addr) => IRV::Local(addr),
        BindingRecord::IVal(index) => IRV::IVal(index),
        BindingRecord::VarIVal(index) => IRV::IVal(index),
        BindingRecord::DoIVal(index) => IRV::IVal(index),
    }
}

/// Code that reads the name as a value.
pub open spec fn rec_identifier(r: BindingRecord, key: Seq<char>) -> Result<Seq<IRV>, CompileErrorV> {
    match r {
        BindingRecord::Local(address) => Ok(seq![IRV::Local(address)]),
        BindingRecord::Var(address) => Ok(seq![IRV::Local(address), IRV::Deref]),
        BindingRecord::IVal(index) => Ok(seq![IRV::IVal(index)]),
        BindingRecord::VarIVal(index) => Ok(seq![IRV::IVal(index), IRV::Deref]),
        BindingRecord::Do(_) => Err(CompileErrorV::InvalidDoReference(key)),
        BindingRecord::DoIVal(_) => Err(CompileErrorV::InvalidDoReference(key)),
    }
}

/// Code that reads the name as the target of a send (do-blocks allowed).
pub open spec fn rec_target_identifier(r: BindingRecord, key: Seq<char>) -> Result<Seq<IRV>, CompileErrorV> {
    match r {
        BindingRecord::Do(address) => Ok(seq![IRV::Local(address)]),
        BindingRecord::DoIVal(index) => Ok(seq![IRV::IVal(index)]),
        _ => rec_identifier(r, key),
    }
}

/// Code that passes a `var` name by reference.
pub open spec fn rec_var_arg(r: BindingRecord, key: Seq<char>) -> Result<Seq<IRV>, CompileErrorV> {
    match r {
        BindingRecord::Var(address) => Ok(seq![IRV::Local(address)]),
        _ => Err(CompileErrorV::InvalidVarArg(key)),
    }
}

/// Code that stores the value on the stack into a `var` name.
pub open spec fn rec_set(r: BindingRecord, key: Seq<char>) -> Result<Seq<IRV>, CompileErrorV> {
    match r {
        BindingRecord::Var(address) => Ok(seq![IRV::Local(address), IRV::SetVar]),
        BindingRecord::VarIVal(index) => Ok(seq![IRV::IVal(index), IRV::SetVar]),
        _ => Err(CompileErrorV::InvalidSet(key)),
    }
}

/// How a binding captured by an object handler is seen inside it: locals and instance
/// values become instance values; vars and do-blocks cannot be captured.
pub open spec fn rec_as_handler_ival(r: BindingRecord, next_index: Index, key: Seq<char>) -> Result<BindingRecord, CompileErrorV> {
    match r {
        BindingRecord::Local(_) => Ok(BindingRecord::IVal(next_index)),
        BindingRecord::IVal(_) => Ok(BindingRecord::IVal(next_index)),
        _ => Err(CompileErrorV::InvalidVarReference(key)),
    }
}

/// How a binding captured by a do-block handler is seen inside it: every kind is kept,
/// as an instance value.
pub open spec fn rec_as_do_handler_ival(r: BindingRecord, next_index: Index) -> BindingRecord {
    match r {
        BindingRecord::Local(_) => BindingRecord::IVal(next_index),
        BindingRecord::IVal(_) => BindingRecord::IVal(next_index),
        BindingRecord::Var(_) => BindingRecord::VarIVal(next_index),
        BindingRecord::VarIVal(_) => BindingRecord::VarIVal(next_index),
        BindingRecord::Do(_) => BindingRecord::DoIVal(next_index),
        BindingRecord::DoIVal(_) => BindingRecord::DoIVal(next_index),
    }
}

impl BindingRecord {
    fn ival(self) -> (ir: IR)
        ensures
            crate::runtime_2::ir_view(ir) == rec_ival(self),
    {
        match self {
            Self::Local(addr) => IR::Local(addr),
            Self::Var(addr) => IR::Local(addr),
            Self::Do(addr) => IR::Local(addr),
            Self::IVal(index) => IR::IVal(index),
            Self::VarIVal(index) => IR::IVal(index),
            Self::DoIVal(index) => IR::IVal(index),
        }
    }

    fn identifier(self, key: String) -> (r: CompileIR)
        ensures
            match rec_identifier(self, key@) {
                Ok(ir) => r matches Ok(b) && b@ == ir,
                Err(e) => r matches Err(e2) && error_view(e2) == e,
            },
    {
        let ir = match self {
            Self::Local(address) => vec![IR::Local(address)],
            Self::Var(address) => vec![IR::Local(address), IR::Deref],
            Self::IVal(index) => vec![IR::IVal(index)],
            Self::VarIVal(index) => vec![IR::IVal(index), IR::Deref],
            Self::Do(_) => return Err(CompileError::InvalidDoReference(key)),
            Self::DoIVal(_) => return Err(CompileError::InvalidDoReference(key)),
        };
        proof {
            lemma_body_view(ir@);
            assert(body_view(ir@) =~= rec_identifier(self, key@)->Ok_0);
        }
        Ok(IRBuilder::from(ir))
    }

    fn target_identifier(self, key: String) -> (r: CompileIR)
        ensures
            match rec_target_identifier(self, key@) {
                Ok(ir) => r matches Ok(b) && b@ == ir,
                Err(e) => r matches Err(e2) && error_view(e2) == e,
            },
    {
        let ir = match self {
            Self::Do(address) => vec![IR::Local(address)],
            Self::DoIVal(index) => vec![IR::IVal(index)],
            _ => return self.identifier(key),
        };
        proof {
            lemma_body_view(ir@);
            assert(body_view(ir@) =~= rec_target_identifier(self, key@)->Ok_0);
        }
        Ok(IRBuilder::from(ir))
    }

    fn arg_identifier(self, key: String) -> (r: CompileIR)
        ensures
            match rec_target_identifier(self, key@) {
                Ok(ir) => r matches Ok(b) && b@ == ir,
                Err(e) => r matches Err(e2) && error_view(e2) == e,
            },
    {
        let ir = match self {
            Self::Do(address) => vec![IR::Local(address)],
            Self::DoIVal(index) => vec![IR::IVal(index)],
            _ => return self.identifier(key),
        };
        proof {
            lemma_body_view(ir@);
            assert(body_view(ir@) =~= rec_target_identifier(self, key@)->Ok_0);
        }
        Ok(IRBuilder::from(ir))
    }

    fn var_arg(self, key: String) -> (r: CompileIR)
        ensures
            match rec_var_arg(self, key@) {
                Ok(ir) => r matches Ok(b) && b@ == ir,
                Err(e) => r matches Err(e2) && error_view(e2) == e,
            },
    {
        let ir = match self {
            Self::Var(address) => IR::Local(address),
            _ => return Err(CompileError::InvalidVarArg(key)),
        };
        let v = vec![ir];
        proof {
            lemma_body_view(v@);
            assert(body_view(v@) =~= rec_var_arg(self, key@)->Ok_0);
        }
        Ok(IRBuilder::from(v))
    }

    fn set(self, key: String) -> (r: CompileIR)
        ensures
            match rec_set(self, key@) {
                Ok(ir) => r matches Ok(b) && b@ == ir,
                Err(e) => r matches Err(e2) && error_view(e2) == e,
            },
    {
        let ir = match self {
            Self::Var(address) => vec![IR::Local(address), IR::SetVar],
            Self::VarIVal(index) => vec![IR::IVal(index), IR::SetVar],
            _ => return Err(CompileError::InvalidSet(key)),
        };
        proof {
            lemma_body_view(ir@);
            assert(body_view(ir@) =~= rec_set(self, key@)->Ok_0);
        }
        Ok(IRBuilder::from(ir))
    }

    fn as_handler_ival(self, next_index: Index, key: &String) -> (r: Compile<Self>)
        ensures
            match rec_as_handler_ival(self, next_index, key@) {
                Ok(rec) => r == Ok::<BindingRecord, CompileError>(rec),
                Err(e) => r matches Err(e2) && error_view(e2) == e,
            },
    {
        match self {
            Self::Local(_) => Ok(Self::IVal(next_index)),
            Self::IVal(_) => Ok(Self::IVal(next_index)),
            _ => Err(CompileError::InvalidVarReference(key.clone())),
        }
    }

    fn as_do_handler_ival(self, next_index: Index) -> (r: Self)
        ensures
            r == rec_as_do_handler_ival(self, next_index),
    {
        match self {
            Self::Local(_) => Self::IVal(next_index),
            Self::IVal(_) => Self::IVal(next_index),
            Self::Var(_) => Self::VarIVal(next_index),
            Self::VarIVal(_) => Self::VarIVal(next_index),
            Self::Do(_) => Self::DoIVal(next_index),
            Self::DoIVal(_) => Self::DoIVal(next_index),
        }
    }
}

/// The names bound in one handler (or the program's top level) and the next free slot.
struct Locals {
    locals: Assoc<BindingRecord>,
    next_index: usize,
}

impl Locals {
    fn new() -> (l: Self)
        ensures
            l.locals@ == Map::<Seq<char>, BindingRecord>::empty(),
            l.next_index == 0,
    {
        Locals { locals: Assoc::new(), next_index: 0 }
    }

    fn get(&self, key: &String) -> (r: Option<BindingRecord>)
        ensures
            r == (if self.locals@.contains_key(key@) {
                Some(self.locals@[key@])
            } else {
                None::<BindingRecord>
            }),
    {
        self.locals.get(key)
    }

    fn add_let(&mut self, key: String)
        requires
            old(self).next_index < usize::MAX,
        ensures
            final(self).locals@ == old(self).locals@.insert(key@, BindingRecord::Local(old(self).next_index)),
            final(self).next_index == old(self).next_index + 1,
    {
        self.locals.insert(key, BindingRecord::Local(self.next_index));
        self.next_index += 1;
    }

    fn add_var(&mut self, key: String) -> (index: usize)
        requires
            old(self).next_index + 2 <= usize::MAX,
        ensures
            index == old(self).next_index,
            final(self).locals@ == old(self).locals@.insert(key@, BindingRecord::Var((old(self).next_index + 1) as usize)),
            final(self).next_index == old(self).next_index + 2,
    {
        let var_index = self.next_index;
        self.locals.insert(key, BindingRecord::Var(var_index + 1));
        // allocate for both var ptr & value it references
        self.next_index += 2;
        var_index
    }

    fn add_var_param(&mut self, key: String)
        requires
            old(self).next_index < usize::MAX,
        ensures
            final(self).locals@ == old(self).locals@.insert(key@, BindingRecord::Var(old(self).next_index)),
            final(self).next_index == old(self).next_index + 1,
    {
        self.locals.insert(key, BindingRecord::Var(self.next_index));
        self.next_index += 1;
    }

    fn add_do_param(&mut self, key: String)
        requires
            old(self).next_index < usize::MAX,
        ensures
            final(self).locals@ == old(self).locals@.insert(key@, BindingRecord::Do(old(self).next_index)),
            final(self).next_index == old(self).next_index + 1,
    {
        self.locals.insert(key, BindingRecord::Do(self.next_index));
        self.next_index += 1;
    }
}

/// The outer bindings a handler captures, in capture order, and how it sees them.
struct IVals {
    map: Assoc<BindingRecord>,
    ivals: Vec<BindingRecord>,
}

impl IVals {
    fn new() -> (v: Self)
        ensures
            v.map@ == Map::<Seq<char>, BindingRecord>::empty(),
            v.ivals@ == Seq::<BindingRecord>::empty(),
    {
        IVals { map: Assoc::new(), ivals: Vec::new() }
    }

    fn add(&mut self, key: String, value: BindingRecord) -> (r: Compile<BindingRecord>)
        requires
            !old(self).map@.contains_key(key@),
        ensures
            final(self).ivals@ == old(self).ivals@.push(value),
            match rec_as_handler_ival(value, old(self).ivals@.len() as usize, key@) {
                Ok(rec) => r == Ok::<BindingRecord, CompileError>(rec) && final(self).map@
                    == old(self).map@.insert(key@, rec),
                Err(e) => r matches Err(e2) && error_view(e2) == e,
            },
    {
        let next_index = self.ivals.len();
        self.ivals.push(value);
        let ival = value.as_handler_ival(next_index, &key)?;
        let _ = self.map.insert(key, ival);
        Ok(ival)
    }

    fn add_do(&mut self, key: String, value: BindingRecord) -> (r: Compile<BindingRecord>)
        requires
            !old(self).map@.contains_key(key@),
        ensures
            final(self).ivals@ == old(self).ivals@.push(value),
            r == Ok::<BindingRecord, CompileError>(rec_as_do_handler_ival(value, old(self).ivals@.len() as usize)),
            final(self).map@ == old(self).map@.insert(
                key@,
                rec_as_do_handler_ival(value, old(self).ivals@.len() as usize),
            ),
    {
        let next_index = self.ivals.len();
        self.ivals.push(value);
        let ival = value.as_do_handler_ival(next_index);
        let _ = self.map.insert(key, ival);
        Ok(ival)
    }

    fn get(&self, key: &String) -> (r: Option<BindingRecord>)
        ensures
            r == (if self.map@.contains_key(key@) {
                Some(self.map@[key@])
            } else {
                None::<BindingRecord>
            }),
    {
        self.map.get(key)
    }

    fn count(&self) -> (n: usize)
        ensures
            n == self.ivals@.len(),
    {
        self.ivals.len()
    }

    fn compile(self) -> (r: CompileIR)
        ensures
            r matches Ok(b) && b@ == ivals_ir(self.ivals@),
    {
        let mut out = IRBuilder::new();
        let n = self.ivals.len();
        let mut i: usize = 0;
        while i < n
            invariant
                n == self.ivals@.len(),
                i <= n,
                out@ == ivals_ir(self.ivals@.take(i as int)),
            decreases n - i,
        {
            let ival = self.ivals[i];
            out.push(ival.ival());
            proof {
                assert(self.ivals@.take(i + 1).drop_last() == self.ivals@.take(i as int));
            }
            i = i + 1;
        }
        proof {
            assert(self.ivals@.take(n as int) == self.ivals@);
        }
        Ok(out)
    }
}

/// The code that pushes the captured values, in capture order.
pub open spec fn ivals_ir(ivals: Seq<BindingRecord>) -> Seq<IRV>
    decreases ivals.len(),
{
    if ivals.len() == 0 {
        Seq::empty()
    } else {
        ivals_ir(ivals.drop_last()).push(rec_ival(ivals.last()))
    }
}

/// The kind of a compiler frame.
pub enum FrameKind {
    Root,
    Handler,
    Do,
}

/// The view of a compiler frame: its kind, its local names and next free slot, and (for
/// handler frames) its captured names and captured bindings in order.
pub struct CFrameV {
    pub kind: FrameKind,
    pub locals: Map<Seq<char>, BindingRecord>,
    pub next_index: usize,
    pub ival_map: Map<Seq<char>, BindingRecord>,
    pub ivals: Seq<BindingRecord>,
}

enum CompilerFrame {
    Root(Locals),
    Handler(Locals, IVals),
    Do(Locals, IVals),
}

spec fn cframe_view(f: CompilerFrame) -> CFrameV {
    match f {
        CompilerFrame::Root(ls) => CFrameV {
            kind: FrameKind::Root,
            locals: ls.locals@,
            next_index: ls.next_index,
            ival_map: Map::empty(),
            ivals: Seq::empty(),
        },
        CompilerFrame::Handler(ls, iv) => CFrameV {
            kind: FrameKind::Handler,
            locals: ls.locals@,
            next_index: ls.next_index,
            ival_map: iv.map@,
            ivals: iv.ivals@,
        },
        CompilerFrame::Do(ls, iv) => CFrameV {
            kind: FrameKind::Do,
            locals: ls.locals@,
            next_index: ls.next_index,
            ival_map: iv.map@,
            ivals: iv.ivals@,
        },
    }
}

/// A fresh frame for a handler body that starts from the given captures.
pub open spec fn new_handler_frame(is_do: bool, ival_map: Map<Seq<char>, BindingRecord>, ivals: Seq<BindingRecord>) -> CFrameV {
    CFrameV {
        kind: if is_do { FrameKind::Do } else { FrameKind::Handler },
        locals: Map::empty(),
        next_index: 0,
        ival_map,
        ivals,
    }
}

/// A frame with a `let` name bound at the next slot; `None` where the slot counter would
/// overflow.
pub open spec fn frame_add_let(f: CFrameV, key: Seq<char>) -> Option<CFrameV> {
    if f.next_index >= usize::MAX {
        None
    } else {
        Some(
            CFrameV {
                locals: f.locals.insert(key, BindingRecord::Local(f.next_index)),
                next_index: (f.next_index + 1) as usize,
                ..f
            },
        )
    }
}

/// A frame with a `var` name bound: two slots, the cell and its value.
pub open spec fn frame_add_var(f: CFrameV, key: Seq<char>) -> Option<CFrameV> {
    if f.next_index + 2 > usize::MAX {
        None
    } else {
        Some(
            CFrameV {
                locals: f.locals.insert(key, BindingRecord::Var((f.next_index + 1) as usize)),
                next_index: (f.next_index + 2) as usize,
                ..f
            },
        )
    }
}

/// A frame with a `var` parameter bound at the next slot.
pub open spec fn frame_add_var_param(f: CFrameV, key: Seq<char>) -> Option<CFrameV> {
    if f.next_index >= usize::MAX {
        None
    } else {
        Some(
            CFrameV {
                locals: f.locals.insert(key, BindingRecord::Var(f.next_index)),
                next_index: (f.next_index + 1) as usize,
                ..f
            },
        )
    }
}

/// A frame with a `do` parameter bound at the next slot.
pub open spec fn frame_add_do_param(f: CFrameV, key: Seq<char>) -> Option<CFrameV> {
    if f.next_index >= usize::MAX {
        None
    } else {
        Some(
            CFrameV {
                locals: f.locals.insert(key, BindingRecord::Do(f.next_index)),
                next_index: (f.next_index + 1) as usize,
                ..f
            },
        )
    }
}

/// A handler frame capturing `key` (bound outside as `value`): the frame afterwards and
/// how the handler sees the capture.
pub open spec fn frame_add_ival(f: CFrameV, key: Seq<char>, value: BindingRecord) -> Result<(CFrameV, BindingRecord), CompileErrorV> {
    let idx = f.ivals.len() as usize;
    match f.kind {
        FrameKind::Do => {
            let rec = rec_as_do_handler_ival(value, idx);
            Ok((CFrameV { ival_map: f.ival_map.insert(key, rec), ivals: f.ivals.push(value), ..f }, rec))
        },
        _ => match rec_as_handler_ival(value, idx, key) {
            Ok(rec) => Ok(
                (CFrameV { ival_map: f.ival_map.insert(key, rec), ivals: f.ivals.push(value), ..f }, rec),
            ),
            Err(e) => Err(e),
        },
    }
}

/// Resolving `key` from frame `depth` outwards: a local or an existing capture of that
/// frame is used as is; otherwise the name is resolved in the enclosing frame and captured
/// by every frame between (each capture is recorded in the frame's instance values).
pub open spec fn get_at_depth(st: Seq<CFrameV>, key: Seq<char>, depth: nat) -> Result<(Seq<CFrameV>, BindingRecord), CompileErrorV>
    decreases depth,
{
    let f = st[depth as int];
    if f.locals.contains_key(key) {
        Ok((st, f.locals[key]))
    } else if !(f.kind is Root) && f.ival_map.contains_key(key) {
        Ok((st, f.ival_map[key]))
    } else if depth == 0 {
        Err(CompileErrorV::UnknownIdentifier(key))
    } else {
        match get_at_depth(st, key, (depth - 1) as nat) {
            Err(e) => Err(e),
            Ok((st2, next)) => match frame_add_ival(st2[depth as int], key, next) {
                Err(e) => Err(e),
                Ok((f2, rec)) => Ok((st2.update(depth as int, f2), rec)),
            },
        }
    }
}

/// Resolving `key` from the innermost frame.
pub open spec fn resolve(st: Seq<CFrameV>, key: Seq<char>) -> Result<(Seq<CFrameV>, BindingRecord), CompileErrorV> {
    get_at_depth(st, key, (st.len() - 1) as nat)
}

/// Frames are well formed: the outermost is the root, the others are handler frames.
pub open spec fn frames_wf(st: Seq<CFrameV>) -> bool {
    &&& st.len() >= 1
    &&& st[0].kind is Root
    &&& forall|i: int| 1 <= i < st.len() ==> !(#[trigger] st[i].kind is Root)
}

/// The compiler: a stack of frames, the program's top level at the bottom.
pub struct Compiler {
    frames: Vec<CompilerFrame>,
}

impl Compiler {
    /// The frames, outermost first.
    pub closed spec fn frames_v(&self) -> Seq<CFrameV> {
        self.frames@.map_values(|f: CompilerFrame| cframe_view(f))
    }

    pub open spec fn wf(&self) -> bool {
        frames_wf(self.frames_v())
    }

    fn new() -> (c: Self)
        ensures
            c.wf(),
            c.frames_v() == seq![
                CFrameV {
                    kind: FrameKind::Root,
                    locals: Map::empty(),
                    next_index: 0,
                    ival_map: Map::empty(),
                    ivals: Seq::empty(),
                },
            ],
    {
        let c = Compiler { frames: vec![CompilerFrame::Root(Locals::new())] };
        proof {
            assert(c.frames_v() =~= seq![
                CFrameV {
                    kind: FrameKind::Root,
                    locals: Map::empty(),
                    next_index: 0,
                    ival_map: Map::empty(),
                    ivals: Seq::empty(),
                },
            ]);
        }
        c
    }
}


pub proof fn lemma_get_at_depth_frames(st: Seq<CFrameV>, key: Seq<char>, depth: nat)
    requires
        depth < st.len(),
    ensures
        get_at_depth(st, key, depth) matches Ok((st2, _)) ==> {
            &&& st2.len() == st.len()
            &&& forall|i: int| depth < i < st.len() ==> st2[i] == st[i]
            &&& forall|i: int| 0 <= i < st.len() ==> st2[i].kind == st[i].kind
        },
    decreases depth,
{
    if depth > 0 {
        lemma_get_at_depth_frames(st, key, (depth - 1) as nat);
    }
}

/// A name, once resolved, resolves again to the same binding and leaves the frames as
/// they are: the captures made by the first resolution are found by the second.
pub proof fn law_resolve_again(st: Seq<CFrameV>, key: Seq<char>, depth: nat)
    requires
        frames_wf(st),
        depth < st.len(),
        get_at_depth(st, key, depth) is Ok,
    ensures
        get_at_depth(get_at_depth(st, key, depth)->Ok_0.0, key, depth) == get_at_depth(st, key, depth),
{
    let f = st[depth as int];
    if !f.locals.contains_key(key) && !(!(f.kind is Root) && f.ival_map.contains_key(key)) && depth > 0 {
        lemma_get_at_depth_frames(st, key, (depth - 1) as nat);
        let st3 = get_at_depth(st, key, (depth - 1) as nat)->Ok_0.0;
        assert(st3[depth as int] == f);
        assert(!(f.kind is Root));
    }
}

/// The slot a binding record names in its frame, for the kinds held as locals.
pub open spec fn record_slot(r: BindingRecord) -> int {
    match r {
        BindingRecord::Local(a) => a as int,
        BindingRecord::Var(a) => a as int,
        BindingRecord::Do(a) => a as int,
        BindingRecord::IVal(i) => i as int,
        BindingRecord::VarIVal(i) => i as int,
        BindingRecord::DoIVal(i) => i as int,
    }
}

/// Every local of the frame sits in a slot below the next free one.
pub open spec fn slots_below(f: CFrameV) -> bool {
    forall|k: Seq<char>| #[trigger] f.locals.contains_key(k) ==> record_slot(f.locals[k]) < f.next_index
}

/// Binding a name never hands out a slot another name of the frame holds: the new slot
/// is the next free one (a `var` takes two and names the second), and the frame keeps
/// every local below its next free slot.
pub proof fn law_fresh_slots(f: CFrameV, key: Seq<char>, other: Seq<char>)
    requires
        slots_below(f),
        other != key,
    ensures
        frame_add_let(f, key) matches Some(g) ==> slots_below(g) && record_slot(g.locals[key]) == f.next_index
            && (g.locals.contains_key(other) ==> record_slot(g.locals[other]) < record_slot(g.locals[key])),
        frame_add_var(f, key) matches Some(g) ==> slots_below(g) && record_slot(g.locals[key]) == f.next_index + 1
            && (g.locals.contains_key(other) ==> record_slot(g.locals[other]) < f.next_index),
        frame_add_var_param(f, key) matches Some(g) ==> slots_below(g) && record_slot(g.locals[key]) == f.next_index
            && (g.locals.contains_key(other) ==> record_slot(g.locals[other]) < record_slot(g.locals[key])),
        frame_add_do_param(f, key) matches Some(g) ==> slots_below(g) && record_slot(g.locals[key]) == f.next_index
            && (g.locals.contains_key(other) ==> record_slot(g.locals[other]) < record_slot(g.locals[key])),
{
}

impl CompilerFrame {
    fn root() -> (f: Self)
        ensures
            cframe_view(f) == (CFrameV {
                kind: FrameKind::Root,
                locals: Map::empty(),
                next_index: 0,
                ival_map: Map::empty(),
                ivals: Seq::empty(),
            }),
    {
        Self::Root(Locals::new())
    }

    fn handler(ivals: IVals) -> (f: Self)
        ensures
            cframe_view(f) == new_handler_frame(false, ivals.map@, ivals.ivals@),
    {
        Self::Handler(Locals::new(), ivals)
    }

    fn do_handler(ivals: IVals) -> (f: Self)
        ensures
            cframe_view(f) == new_handler_frame(true, ivals.map@, ivals.ivals@),
    {
        Self::Do(Locals::new(), ivals)
    }

    fn get_local(&self, key: &String) -> (r: Option<BindingRecord>)
        ensures
            r == (if cframe_view(*self).locals.contains_key(key@) {
                Some(cframe_view(*self).locals[key@])
            } else {
                None::<BindingRecord>
            }),
    {
        match self {
            Self::Root(ls) => ls.get(key),
            Self::Handler(ls, _) => ls.get(key),
            Self::Do(ls, _) => ls.get(key),
        }
    }

    fn ivals(self) -> (iv: IVals)
        requires
            !(cframe_view(self).kind is Root),
        ensures
            iv.map@ == cframe_view(self).ival_map,
            iv.ivals@ == cframe_view(self).ivals,
    {
        match self {
            Self::Root(_) => vstd::pervasive::unreached(),
            Self::Handler(_, ivals) => ivals,
            Self::Do(_, ivals) => ivals,
        }
    }

    fn get_ival(&self, key: &String) -> (r: Option<BindingRecord>)
        ensures
            r == (if !(cframe_view(*self).kind is Root) && cframe_view(*self).ival_map.contains_key(key@) {
                Some(cframe_view(*self).ival_map[key@])
            } else {
                None::<BindingRecord>
            }),
    {
        match self {
            Self::Root(_) => None,
            Self::Handler(_, ivals) => ivals.get(key),
            Self::Do(_, ivals) => ivals.get(key),
        }
    }

    fn add_ival(self, key: String, value: BindingRecord) -> (r: (Self, Compile<BindingRecord>))
        requires
            !(cframe_view(self).kind is Root),
            !cframe_view(self).ival_map.contains_key(key@),
        ensures
            cframe_view(r.0).kind == cframe_view(self).kind,
            match frame_add_ival(cframe_view(self), key@, value) {
                Ok((f2, rec)) => r.1 == Ok::<BindingRecord, CompileError>(rec) && cframe_view(r.0) == f2,
                Err(e) => r.1 matches Err(e2) && error_view(e2) == e,
            },
    {
        match self {
            Self::Root(_) => vstd::pervasive::unreached(),
            Self::Handler(ls, mut ivals) => {
                let r = ivals.add(key, value);
                (Self::Handler(ls, ivals), r)
            },
            Self::Do(ls, mut ivals) => {
                let r = ivals.add_do(key, value);
                (Self::Do(ls, ivals), r)
            },
        }
    }

    fn add_let(self, key: String) -> (f: Self)
        requires
            frame_add_let(cframe_view(self), key@) is Some,
        ensures
            cframe_view(f) == frame_add_let(cframe_view(self), key@).unwrap(),
    {
        match self {
            Self::Root(mut ls) => {
                ls.add_let(key);
                Self::Root(ls)
            },
            Self::Handler(mut ls, iv) => {
                ls.add_let(key);
                Self::Handler(ls, iv)
            },
            Self::Do(mut ls, iv) => {
                ls.add_let(key);
                Self::Do(ls, iv)
            },
        }
    }

    fn add_var(self, key: String) -> (r: (Self, usize))
        requires
            frame_add_var(cframe_view(self), key@) is Some,
        ensures
            cframe_view(r.0) == frame_add_var(cframe_view(self), key@).unwrap(),
            r.1 == cframe_view(self).next_index,
    {
        match self {
            Self::Root(mut ls) => {
                let i = ls.add_var(key);
                (Self::Root(ls), i)
            },
            Self::Handler(mut ls, iv) => {
                let i = ls.add_var(key);
                (Self::Handler(ls, iv), i)
            },
            Self::Do(mut ls, iv) => {
                let i = ls.add_var(key);
                (Self::Do(ls, iv), i)
            },
        }
    }

    fn add_var_param(self, key: String) -> (f: Self)
        requires
            frame_add_var_param(cframe_view(self), key@) is Some,
        ensures
            cframe_view(f) == frame_add_var_param(cframe_view(self), key@).unwrap(),
    {
        match self {
            Self::Root(mut ls) => {
                ls.add_var_param(key);
                Self::Root(ls)
            },
            Self::Handler(mut ls, iv) => {
                ls.add_var_param(key);
                Self::Handler(ls, iv)
            },
            Self::Do(mut ls, iv) => {
                ls.add_var_param(key);
                Self::Do(ls, iv)
            },
        }
    }

    fn add_do_param(self, key: String) -> (f: Self)
        requires
            frame_add_do_param(cframe_view(self), key@) is Some,
        ensures
            cframe_view(f) == frame_add_do_param(cframe_view(self), key@).unwrap(),
    {
        match self {
            Self::Root(mut ls) => {
                ls.add_do_param(key);
                Self::Root(ls)
            },
            Self::Handler(mut ls, iv) => {
                ls.add_do_param(key);
                Self::Handler(ls, iv)
            },
            Self::Do(mut ls, iv) => {
                ls.add_do_param(key);
                Self::Do(ls, iv)
            },
        }
    }
}

/// The frames with the innermost one replaced.
pub open spec fn with_top(st: Seq<CFrameV>, f: CFrameV) -> Seq<CFrameV> {
    st.update(st.len() - 1, f)
}

impl Compiler {
    proof fn lemma_frames_view(&self)
        ensures
            self.frames_v().len() == self.frames@.len(),
            forall|i: int| 0 <= i < self.frames@.len() ==> #[trigger] self.frames_v()[i] == cframe_view(self.frames@[i]),
    {
    }

    fn handler(&mut self, ivals: IVals)
        requires
            old(self).wf(),
        ensures
            final(self).wf(),
            final(self).frames_v() == old(self).frames_v().push(new_handler_frame(false, ivals.map@, ivals.ivals@)),
    {
        self.frames.push(CompilerFrame::handler(ivals));
        proof {
            assert(self.frames_v() =~= old(self).frames_v().push(new_handler_frame(false, ivals.map@, ivals.ivals@)));
        }
    }

    fn do_handler(&mut self, ivals: IVals)
        requires
            old(self).wf(),
        ensures
            final(self).wf(),
            final(self).frames_v() == old(self).frames_v().push(new_handler_frame(true, ivals.map@, ivals.ivals@)),
    {
        self.frames.push(CompilerFrame::do_handler(ivals));
        proof {
            assert(self.frames_v() =~= old(self).frames_v().push(new_handler_frame(true, ivals.map@, ivals.ivals@)));
        }
    }

    fn end_handler(&mut self) -> (iv: IVals)
        requires
            old(self).wf(),
            old(self).frames_v().len() > 1,
        ensures
            final(self).wf(),
            final(self).frames_v() == old(self).frames_v().drop_last(),
            iv.map@ == old(self).frames_v().last().ival_map,
            iv.ivals@ == old(self).frames_v().last().ivals,
    {
        proof {
            self.lemma_frames_view();
        }
        let f = self.frames.pop().unwrap();
        proof {
            assert(self.frames_v() =~= old(self).frames_v().drop_last());
        }
        f.ivals()
    }

    fn add_let(&mut self, key: String)
        requires
            old(self).wf(),
            frame_add_let(old(self).frames_v().last(), key@) is Some,
        ensures
            final(self).wf(),
            final(self).frames_v() == with_top(
                old(self).frames_v(),
                frame_add_let(old(self).frames_v().last(), key@).unwrap(),
            ),
    {
        proof {
            self.lemma_frames_view();
        }
        let f = self.frames.pop().unwrap();
        self.frames.push(f.add_let(key));
        proof {
            assert(self.frames_v() =~= with_top(
                old(self).frames_v(),
                frame_add_let(old(self).frames_v().last(), key@).unwrap(),
            ));
        }
    }

    fn add_var(&mut self, key: String) -> (r: CompileIR)
        requires
            old(self).wf(),
            frame_add_var(old(self).frames_v().last(), key@) is Some,
        ensures
            final(self).wf(),
            final(self).frames_v() == with_top(
                old(self).frames_v(),
                frame_add_var(old(self).frames_v().last(), key@).unwrap(),
            ),
            r matches Ok(b) && b@ == seq![IRV::Var(old(self).frames_v().last().next_index)],
    {
        proof {
            self.lemma_frames_view();
        }
        let f = self.frames.pop().unwrap();
        let (f2, index) = f.add_var(key);
        self.frames.push(f2);
        proof {
            assert(self.frames_v() =~= with_top(
                old(self).frames_v(),
                frame_add_var(old(self).frames_v().last(), key@).unwrap(),
            ));
        }
        let v = vec![IR::Var(index)];
        proof {
            lemma_body_view(v@);
            assert(body_view(v@) =~= seq![IRV::Var(index)]);
        }
        Ok(IRBuilder::from(v))
    }

    fn add_var_param(&mut self, key: String)
        requires
            old(self).wf(),
            frame_add_var_param(old(self).frames_v().last(), key@) is Some,
        ensures
            final(self).wf(),
            final(self).frames_v() == with_top(
                old(self).frames_v(),
                frame_add_var_param(old(self).frames_v().last(), key@).unwrap(),
            ),
    {
        proof {
            self.lemma_frames_view();
        }
        let f = self.frames.pop().unwrap();
        self.frames.push(f.add_var_param(key));
        proof {
            assert(self.frames_v() =~= with_top(
                old(self).frames_v(),
                frame_add_var_param(old(self).frames_v().last(), key@).unwrap(),
            ));
        }
    }

    fn add_do_param(&mut self, key: String)
        requires
            old(self).wf(),
            frame_add_do_param(old(self).frames_v().last(), key@) is Some,
        ensures
            final(self).wf(),
            final(self).frames_v() == with_top(
                old(self).frames_v(),
                frame_add_do_param(old(self).frames_v().last(), key@).unwrap(),
            ),
    {
        proof {
            self.lemma_frames_view();
        }
        let f = self.frames.pop().unwrap();
        self.frames.push(f.add_do_param(key));
        proof {
            assert(self.frames_v() =~= with_top(
                old(self).frames_v(),
                frame_add_do_param(old(self).frames_v().last(), key@).unwrap(),
            ));
        }
    }

    fn get(&mut self, key: &String) -> (r: Compile<BindingRecord>)
        requires
            old(self).wf(),
        ensures
            final(self).wf(),
            match resolve(old(self).frames_v(), key@) {
                Ok((st, rec)) => r == Ok::<BindingRecord, CompileError>(rec) && final(self).frames_v() == st,
                Err(e) => r matches Err(e2) && error_view(e2) == e,
            },            final(self).frames_v().len() == old(self).frames_v().len(),
    {
        proof {
            self.lemma_frames_view();
        }
        self.get_at_depth(key, self.frames.len() - 1)
    }

    fn get_at_depth(&mut self, key: &String, depth: usize) -> (r: Compile<BindingRecord>)
        requires
            old(self).wf(),
            depth < old(self).frames_v().len(),
        ensures
            final(self).wf(),
            match get_at_depth(old(self).frames_v(), key@, depth as nat) {
                Ok((st, rec)) => r == Ok::<BindingRecord, CompileError>(rec) && final(self).frames_v() == st,
                Err(e) => r matches Err(e2) && error_view(e2) == e,
            },
            final(self).frames_v().len() == old(self).frames_v().len(),
        decreases depth,
    {
        proof {
            self.lemma_frames_view();
        }
        let ghost st0 = self.frames_v();
        let frame = &self.frames[depth];
        if let Some(record) = frame.get_local(key) {
            return Ok(record);
        }
        if let Some(record) = frame.get_ival(key) {
            return Ok(record);
        }
        if depth == 0 {
            return Err(CompileError::UnknownIdentifier(key.clone()));
        }
        let next = self.get_at_depth(key, depth - 1)?;
        proof {
            self.lemma_frames_view();
            lemma_get_at_depth_frames(st0, key@, (depth - 1) as nat);
        }
        let frame = self.frames.remove(depth);
        let (frame2, ival) = frame.add_ival(key.clone(), next);
        self.frames.insert(depth, frame2);
        proof {
            self.lemma_frames_view();
            let st2 = get_at_depth(st0, key@, (depth - 1) as nat)->Ok_0.0;
            assert(self.frames_v() =~= st2.update(depth as int, cframe_view(frame2)));
        }
        ival
    }

    fn identifier(&mut self, key: String) -> (r: CompileIR)
        requires
            old(self).wf(),
        ensures
            final(self).wf(),
            match c_identifier(old(self).frames_v(), key@) {
                Out::Done(st, ir) => r matches Ok(b) && b@ == ir && final(self).frames_v() == st,
                Out::Failed(e) => r matches Err(e2) && error_view(e2) == e,
                Out::Fault => false,
            },
            final(self).frames_v().len() == old(self).frames_v().len(),
    {
        self.get(&key)?.identifier(key)
    }

    fn target_identifier(&mut self, key: String) -> (r: CompileIR)
        requires
            old(self).wf(),
        ensures
            final(self).wf(),
            match c_target_identifier(old(self).frames_v(), key@) {
                Out::Done(st, ir) => r matches Ok(b) && b@ == ir && final(self).frames_v() == st,
                Out::Failed(e) => r matches Err(e2) && error_view(e2) == e,
                Out::Fault => false,
            },
            final(self).frames_v().len() == old(self).frames_v().len(),
    {
        self.get(&key)?.target_identifier(key)
    }

    fn arg_identifier(&mut self, key: String) -> (r: CompileIR)
        requires
            old(self).wf(),
        ensures
            final(self).wf(),
            match c_target_identifier(old(self).frames_v(), key@) {
                Out::Done(st, ir) => r matches Ok(b) && b@ == ir && final(self).frames_v() == st,
                Out::Failed(e) => r matches Err(e2) && error_view(e2) == e,
                Out::Fault => false,
            },
            final(self).frames_v().len() == old(self).frames_v().len(),
    {
        self.get(&key)?.arg_identifier(key)
    }

    fn var_arg(&mut self, key: String) -> (r: CompileIR)
        requires
            old(self).wf(),
        ensures
            final(self).wf(),
            match c_var_arg(old(self).frames_v(), key@) {
                Out::Done(st, ir) => r matches Ok(b) && b@ == ir && final(self).frames_v() == st,
                Out::Failed(e) => r matches Err(e2) && error_view(e2) == e,
                Out::Fault => false,
            },
            final(self).frames_v().len() == old(self).frames_v().len(),
    {
        self.get(&key)?.var_arg(key)
    }

    fn set(&mut self, key: String) -> (r: CompileIR)
        requires
            old(self).wf(),
        ensures
            final(self).wf(),
            match c_set(old(self).frames_v(), key@) {
                Out::Done(st, ir) => r matches Ok(b) && b@ == ir && final(self).frames_v() == st,
                Out::Failed(e) => r matches Err(e2) && error_view(e2) == e,
                Out::Fault => false,
            },
            final(self).frames_v().len() == old(self).frames_v().len(),
    {
        self.get(&key)?.set(key)
    }
}

/// What compiling a piece of the program gives: the compiler frames afterwards and the
/// result, a compile error, or `Fault` where the compiler would panic.
pub enum Out<T> {
    Done(Seq<CFrameV>, T),
    Failed(CompileErrorV),
    Fault,
}

/// Resolves `key` and turns the binding into code with `f`.
pub open spec fn resolve_then(
    st: Seq<CFrameV>,
    key: Seq<char>,
    r: Result<(Seq<CFrameV>, BindingRecord), CompileErrorV>,
    code: Result<Seq<IRV>, CompileErrorV>,
) -> Out<Seq<IRV>> {
    match r {
        Ok((st2, _)) => match code {
            Ok(ir) => Out::Done(st2, ir),
            Err(e) => Out::Failed(e),
        },
        Err(e) => Out::Failed(e),
    }
}

pub open spec fn c_identifier(st: Seq<CFrameV>, key: Seq<char>) -> Out<Seq<IRV>> {
    let r = resolve(st, key);
    resolve_then(st, key, r, rec_identifier(r->Ok_0.1, key))
}

pub open spec fn c_target_identifier(st: Seq<CFrameV>, key: Seq<char>) -> Out<Seq<IRV>> {
    let r = resolve(st, key);
    resolve_then(st, key, r, rec_target_identifier(r->Ok_0.1, key))
}

pub open spec fn c_var_arg(st: Seq<CFrameV>, key: Seq<char>) -> Out<Seq<IRV>> {
    let r = resolve(st, key);
    resolve_then(st, key, r, rec_var_arg(r->Ok_0.1, key))
}

pub open spec fn c_set(st: Seq<CFrameV>, key: Seq<char>) -> Out<Seq<IRV>> {
    let r = resolve(st, key);
    resolve_then(st, key, r, rec_set(r->Ok_0.1, key))
}


// ---------------------------------------------------------------------------
// The syntax tree and its compilation
// ---------------------------------------------------------------------------
/// A name being bound: a plain name, a `var` name, or a `do` name.
#[derive(Debug, Clone, PartialEq)]
pub enum Binding {
    Identifier(String),
    VarIdentifier(String),
    DoIdentifier(String),
}

/// Statements.
#[derive(Debug, PartialEq)]
pub enum Stmt {
    Expr(Expr),
    Let(Binding, Expr),
    Var(Binding, Expr),
    Assign(Binding, Expr),
}

/// Expressions. `VarArg` and `DoArg` only stand as arguments of a send (a do-block also
/// as its target).
#[derive(Debug, PartialEq)]
pub enum Expr {
    Integer(i64),
    Identifier(String),
    Send(Selector, Box<Expr>, Vec<Expr>),
    Object(Object),
    VarArg(String),
    DoArg(Object),
    /// A frame literal: its selector and its keyed values in key order. The parser
    /// produces it; this compiler has no code for it.
    Frame(Selector, Vec<(String, Expr)>),
}

#[derive(Debug, PartialEq)]
/// A handler of an object literal: its parameter bindings and its body.
pub struct Handler {
    pub params: Vec<Binding>,
    pub body: Vec<Stmt>,
}

/// An object literal: its handlers, kept in selector order.
#[derive(Debug, PartialEq)]
pub struct Object {
    handlers: Vec<(String, Handler)>,
}


/// The view of a binding.
pub enum BindingV {
    Identifier(Seq<char>),
    VarIdentifier(Seq<char>),
    DoIdentifier(Seq<char>),
}

/// The view of an expression: strings as characters.
pub enum ExprV {
    Integer(i64),
    Identifier(Seq<char>),
    Send(Seq<char>, Box<ExprV>, Seq<ExprV>),
    Object(ObjectV),
    VarArg(Seq<char>),
    DoArg(ObjectV),
    Frame(Seq<char>, Seq<(Seq<char>, ExprV)>),
}

/// The view of a statement.
pub enum StmtV {
    Expr(ExprV),
    Let(BindingV, ExprV),
    Var(BindingV, ExprV),
    Assign(BindingV, ExprV),
}

/// The view of an object literal's handler.
pub struct AstHandlerV {
    pub params: Seq<BindingV>,
    pub body: Seq<StmtV>,
}

/// The view of an object literal: its handlers in selector order.
pub struct ObjectV {
    pub handlers: Seq<(Seq<char>, AstHandlerV)>,
}

pub open spec fn binding_view(b: Binding) -> BindingV {
    match b {
        Binding::Identifier(s) => BindingV::Identifier(s@),
        Binding::VarIdentifier(s) => BindingV::VarIdentifier(s@),
        Binding::DoIdentifier(s) => BindingV::DoIdentifier(s@),
    }
}

pub open spec fn bindings_view(bs: Seq<Binding>) -> Seq<BindingV> {
    bs.map_values(|b: Binding| binding_view(b))
}

pub open spec fn expr_view(e: Expr) -> ExprV
    decreases e,
{
    match e {
        Expr::Integer(v) => ExprV::Integer(v),
        Expr::Identifier(s) => ExprV::Identifier(s@),
        Expr::Send(sel, t, args) => ExprV::Send(sel@, Box::new(expr_view(*t)), exprs_view(args@)),
        Expr::Object(o) => ExprV::Object(object_view(o)),
        Expr::VarArg(s) => ExprV::VarArg(s@),
        Expr::DoArg(o) => ExprV::DoArg(object_view(o)),
        Expr::Frame(sel, pairs) => ExprV::Frame(sel@, pairs_view(pairs@)),
    }
}

pub open spec fn exprs_view(es: Seq<Expr>) -> Seq<ExprV>
    decreases es,
{
    if es.len() == 0 {
        Seq::empty()
    } else {
        seq![expr_view(es[0])] + exprs_view(es.drop_first())
    }
}

pub open spec fn pairs_view(ps: Seq<(String, Expr)>) -> Seq<(Seq<char>, ExprV)>
    decreases ps,
{
    if ps.len() == 0 {
        Seq::empty()
    } else {
        seq![(ps[0].0@, expr_view(ps[0].1))] + pairs_view(ps.drop_first())
    }
}

pub closed spec fn object_view(o: Object) -> ObjectV
    decreases o,
{
    ObjectV { handlers: handlers_view(o.handlers@) }
}

pub open spec fn handlers_view(hs: Seq<(String, Handler)>) -> Seq<(Seq<char>, AstHandlerV)>
    decreases hs,
{
    if hs.len() == 0 {
        Seq::empty()
    } else {
        seq![
            (
                hs[0].0@,
                AstHandlerV { params: bindings_view(hs[0].1.params@), body: stmts_view(hs[0].1.body@) },
            ),
        ] + handlers_view(hs.drop_first())
    }
}

pub open spec fn stmt_view(s: Stmt) -> StmtV
    decreases s,
{
    match s {
        Stmt::Expr(e) => StmtV::Expr(expr_view(e)),
        Stmt::Let(b, e) => StmtV::Let(binding_view(b), expr_view(e)),
        Stmt::Var(b, e) => StmtV::Var(binding_view(b), expr_view(e)),
        Stmt::Assign(b, e) => StmtV::Assign(binding_view(b), expr_view(e)),
    }
}

pub open spec fn stmts_view(ss: Seq<Stmt>) -> Seq<StmtV>
    decreases ss,
{
    if ss.len() == 0 {
        Seq::empty()
    } else {
        seq![stmt_view(ss[0])] + stmts_view(ss.drop_first())
    }
}

pub open spec fn handler_view(h: Handler) -> AstHandlerV {
    AstHandlerV { params: bindings_view(h.params@), body: stmts_view(h.body@) }
}

pub open spec fn handler_view_fn() -> spec_fn(Handler) -> AstHandlerV {
    |h: Handler| handler_view(h)
}

pub proof fn lemma_handlers_view(hs: Seq<(String, Handler)>)
    ensures
        handlers_view(hs) == map_entries(keyed(hs), handler_view_fn()),
    decreases hs.len(),
{
    if hs.len() > 0 {
        lemma_handlers_view(hs.drop_first());
        assert(keyed(hs.drop_first()) =~= keyed(hs).drop_first());
        assert(map_entries(keyed(hs), handler_view_fn()) =~= seq![(hs[0].0@, handler_view(hs[0].1))]
            + map_entries(keyed(hs.drop_first()), handler_view_fn()));
    } else {
        assert(map_entries(keyed(hs), handler_view_fn()) =~= Seq::<(Seq<char>, AstHandlerV)>::empty());
    }
}

pub open spec fn expr_view_fn() -> spec_fn(Expr) -> ExprV {
    |e: Expr| expr_view(e)
}

pub open spec fn binding_view_fn() -> spec_fn(Binding) -> BindingV {
    |b: Binding| binding_view(b)
}

pub proof fn lemma_exprs_view(es: Seq<Expr>)
    ensures
        exprs_view(es) == es.map_values(expr_view_fn()),
    decreases es.len(),
{
    if es.len() > 0 {
        lemma_exprs_view(es.drop_first());
        assert(es.map_values(expr_view_fn()) =~= seq![expr_view(es[0])] + es.drop_first().map_values(expr_view_fn()));
    } else {
        assert(es.map_values(expr_view_fn()) =~= Seq::<ExprV>::empty());
    }
}

pub proof fn lemma_stmts_view(ss: Seq<Stmt>)
    ensures
        stmts_view(ss) == ss.map_values(|s: Stmt| stmt_view(s)),
    decreases ss.len(),
{
    if ss.len() > 0 {
        lemma_stmts_view(ss.drop_first());
        assert(ss.map_values(|s: Stmt| stmt_view(s)) =~= seq![stmt_view(ss[0])] + ss.drop_first().map_values(|s: Stmt| stmt_view(s)));
    } else {
        assert(ss.map_values(|s: Stmt| stmt_view(s)) =~= Seq::<StmtV>::empty());
    }
}

pub proof fn lemma_pairs_view(ps: Seq<(String, Expr)>)
    ensures
        pairs_view(ps) == map_entries(keyed(ps), expr_view_fn()),
    decreases ps.len(),
{
    if ps.len() > 0 {
        lemma_pairs_view(ps.drop_first());
        assert(keyed(ps.drop_first()) =~= keyed(ps).drop_first());
        assert(map_entries(keyed(ps), expr_view_fn()) =~= seq![(ps[0].0@, expr_view(ps[0].1))]
            + map_entries(keyed(ps.drop_first()), expr_view_fn()));
    } else {
        assert(map_entries(keyed(ps), expr_view_fn()) =~= Seq::<(Seq<char>, ExprV)>::empty());
    }
}

/// The handler entries of an object viewed by selector characters.
pub closed spec fn object_keyed(o: Object) -> Seq<(Seq<char>, Handler)> {
    keyed(o.handlers@)
}

impl Object {
    /// The handlers are sorted by selector.
    pub open spec fn wf(&self) -> bool {
        keys_sorted(keys_of(object_keyed(*self)))
    }

    /// The handler for `sel`, if any.
    pub open spec fn handler_for(&self, sel: Seq<char>) -> Option<Handler> {
        lookup_sorted(object_keyed(*self), sel)
    }

    pub fn new() -> (o: Self)
        ensures
            o.wf(),
            object_keyed(o) == Seq::<(Seq<char>, Handler)>::empty(),
            object_view(o).handlers == Seq::<(Seq<char>, AstHandlerV)>::empty(),
    {
        let o = Object { handlers: Vec::new() };
        proof {
            assert(object_keyed(o) =~= Seq::<(Seq<char>, Handler)>::empty());
        }
        o
    }

    /// Adds a handler. A second handler for the same selector is not supported.
    pub fn add_handler(&mut self, selector: String, params: Vec<Binding>, body: Vec<Stmt>) -> (r: Parse<()>)
        requires
            old(self).wf(),
            old(self).handler_for(selector@) is None,
        ensures
            r is Ok,
            final(self).wf(),
            object_keyed(*final(self)) == add_sorted(
                object_keyed(*old(self)),
                selector@,
                Handler { params, body },
            ),
            object_view(*final(self)).handlers == add_sorted(
                object_view(*old(self)).handlers,
                selector@,
                handler_view(Handler { params, body }),
            ),
    {
        let ghost h = Handler { params, body };
        sorted_insert(&mut self.handlers, selector, Handler { params, body });
        proof {
            lemma_handlers_view(old(self).handlers@);
            lemma_handlers_view(self.handlers@);
            lemma_add_sorted_map(object_keyed(*old(self)), selector@, h, handler_view_fn());
        }
        Ok(())
    }

    /// Whether the object has a handler for `selector`.
    pub fn has_handler(&self, selector: &String) -> (r: bool)
        ensures
            r == self.handler_for(selector@) is Some,
            r == lookup_sorted(object_view(*self).handlers, selector@) is Some,
    {
        proof {
            lemma_handlers_view(self.handlers@);
            lemma_lookup_map_entries(object_keyed(*self), selector@, handler_view_fn());
        }
        has_key(&self.handlers, selector)
    }

    /// Adds a handler given the selector as a string slice.
    pub fn add(&mut self, selector: &str, params: Vec<Binding>, body: Vec<Stmt>)
        requires
            old(self).wf(),
            old(self).handler_for(selector@) is None,
        ensures
            final(self).wf(),
            object_keyed(*final(self)) == add_sorted(
                object_keyed(*old(self)),
                selector@,
                Handler { params, body },
            ),
    {
        let s = crate::text::string_from_str(selector);
        let _ = self.add_handler(s, params, body);
    }
}

/// Binding a `let` name in the innermost frame.
pub open spec fn b_let(st: Seq<CFrameV>, b: Binding) -> Option<Seq<CFrameV>> {
    match b {
        Binding::Identifier(name) => match frame_add_let(st.last(), name@) {
            Some(f) => Some(with_top(st, f)),
            None => None,
        },
        _ => None,
    }
}

/// Binding a `var` name in the innermost frame; the code makes the var cell.
pub open spec fn b_var(st: Seq<CFrameV>, b: Binding) -> Out<Seq<IRV>> {
    match b {
        Binding::Identifier(name) => match frame_add_var(st.last(), name@) {
            Some(f) => Out::Done(with_top(st, f), seq![IRV::Var(st.last().next_index)]),
            None => Out::Fault,
        },
        _ => Out::Fault,
    }
}

/// Assigning to a name.
pub open spec fn b_set(st: Seq<CFrameV>, b: Binding) -> Out<Seq<IRV>> {
    match b {
        Binding::Identifier(name) => c_set(st, name@),
        _ => Out::Fault,
    }
}

/// Binding a handler parameter in the innermost frame.
pub open spec fn b_param(st: Seq<CFrameV>, b: Binding) -> Option<(Seq<CFrameV>, Param)> {
    match b {
        Binding::Identifier(name) => match frame_add_let(st.last(), name@) {
            Some(f) => Some((with_top(st, f), Param::Value)),
            None => None,
        },
        Binding::VarIdentifier(name) => match frame_add_var_param(st.last(), name@) {
            Some(f) => Some((with_top(st, f), Param::Var)),
            None => None,
        },
        Binding::DoIdentifier(name) => match frame_add_do_param(st.last(), name@) {
            Some(f) => Some((with_top(st, f), Param::Do)),
            None => None,
        },
    }
}

/// Binding handler parameters in order.
pub open spec fn c_params(st: Seq<CFrameV>, ps: Seq<Binding>) -> Option<(Seq<CFrameV>, Seq<Param>)>
    decreases ps.len(),
{
    if ps.len() == 0 {
        Some((st, Seq::empty()))
    } else {
        match b_param(st, ps[0]) {
            Some((st1, p)) => match c_params(st1, ps.drop_first()) {
                Some((st2, rest)) => Some((st2, seq![p] + rest)),
                None => None,
            },
            None => None,
        }
    }
}

/// Compiling an expression whose value is used.
pub open spec fn c_expr(st: Seq<CFrameV>, e: Expr) -> Out<Seq<IRV>>
    decreases e, 0nat,
{
    match e {
        Expr::Integer(v) => Out::Done(st, seq![IRV::Integer(v)]),
        Expr::Identifier(name) => c_identifier(st, name@),
        Expr::Send(sel, target, args) => match c_args(st, args@) {
            Out::Done(st1, a) => match c_target(st1, *target) {
                Out::Done(st2, t) => Out::Done(st2, a + t + seq![IRV::Send(sel@)]),
                Out::Failed(e) => Out::Failed(e),
                Out::Fault => Out::Fault,
            },
            Out::Failed(e) => Out::Failed(e),
            Out::Fault => Out::Fault,
        },
        Expr::Object(o) => c_object(st, o, false),
        Expr::VarArg(_) => Out::Fault,
        Expr::DoArg(_) => Out::Fault,
        Expr::Frame(..) => Out::Fault,
    }
}

/// Compiling an argument of a send.
pub open spec fn c_arg(st: Seq<CFrameV>, e: Expr) -> Out<Seq<IRV>>
    decreases e, 1nat,
{
    match e {
        Expr::VarArg(name) => c_var_arg(st, name@),
        Expr::DoArg(o) => c_object(st, o, true),
        Expr::Identifier(name) => c_target_identifier(st, name@),
        _ => c_expr(st, e),
    }
}

/// Compiling the target of a send.
pub open spec fn c_target(st: Seq<CFrameV>, e: Expr) -> Out<Seq<IRV>>
    decreases e, 1nat,
{
    match e {
        Expr::DoArg(o) => c_object(st, o, true),
        Expr::Identifier(name) => c_target_identifier(st, name@),
        _ => c_expr(st, e),
    }
}

/// Compiling the arguments of a send, in order.
pub open spec fn c_args(st: Seq<CFrameV>, args: Seq<Expr>) -> Out<Seq<IRV>>
    decreases args, 0nat,
{
    if args.len() == 0 {
        Out::Done(st, Seq::empty())
    } else {
        match c_arg(st, args[0]) {
            Out::Done(st1, a) => match c_args(st1, args.drop_first()) {
                Out::Done(st2, b) => Out::Done(st2, a + b),
                Out::Failed(e) => Out::Failed(e),
                Out::Fault => Out::Fault,
            },
            Out::Failed(e) => Out::Failed(e),
            Out::Fault => Out::Fault,
        }
    }
}

/// The code for a list of arguments is compiled part by part: the code of a list joined
/// from two parts is the code of the first part, then that of the second compiled with the
/// frames the first left; a failure in the first part is the list's failure.
pub proof fn law_args_concat(st: Seq<CFrameV>, xs: Seq<Expr>, ys: Seq<Expr>)
    ensures
        c_args(st, xs + ys) == match c_args(st, xs) {
            Out::Done(st1, a) => match c_args(st1, ys) {
                Out::Done(st2, b) => Out::Done(st2, a + b),
                Out::Failed(e) => Out::Failed(e),
                Out::Fault => Out::Fault,
            },
            Out::Failed(e) => Out::Failed(e),
            Out::Fault => Out::Fault,
        },
    decreases xs.len(),
{
    if xs.len() == 0 {
        assert(xs + ys =~= ys);
        if let Out::Done(st2, b) = c_args(st, ys) {
            assert(Seq::<IRV>::empty() + b =~= b);
        }
    } else {
        assert((xs + ys)[0] == xs[0]);
        assert((xs + ys).drop_first() =~= xs.drop_first() + ys);
        if let Out::Done(st1, a) = c_arg(st, xs[0]) {
            law_args_concat(st1, xs.drop_first(), ys);
            if let Out::Done(st2, b) = c_args(st1, xs.drop_first()) {
                if let Out::Done(st3, c) = c_args(st2, ys) {
                    assert(a + (b + c) =~= (a + b) + c);
                }
            }
        }
    }
}

/// Integer literal arguments compile to pushes of those integers in the order they are
/// written, first argument first, so the handler's first parameter receives the first
/// argument; they leave the compiler frames as they were.
pub proof fn law_integer_args_in_order(st: Seq<CFrameV>, args: Seq<Expr>, xs: Seq<i64>)
    requires
        args.len() == xs.len(),
        forall|i: int| 0 <= i < args.len() ==> #[trigger] args[i] == Expr::Integer(xs[i]),
    ensures
        c_args(st, args) == Out::Done(st, xs.map_values(|x: i64| IRV::Integer(x))),
    decreases args.len(),
{
    if args.len() == 0 {
        assert(xs.map_values(|x: i64| IRV::Integer(x)) =~= Seq::<IRV>::empty());
    } else {
        assert(args[0] == Expr::Integer(xs[0]));
        assert(c_arg(st, args[0]) == Out::Done(st, seq![IRV::Integer(xs[0])]));
        assert forall|i: int| 0 <= i < args.drop_first().len() implies #[trigger] args.drop_first()[i]
            == Expr::Integer(xs.drop_first()[i]) by {
            assert(args[i + 1] == Expr::Integer(xs[i + 1]));
        }
        law_integer_args_in_order(st, args.drop_first(), xs.drop_first());
        assert(seq![IRV::Integer(xs[0])] + xs.drop_first().map_values(|x: i64| IRV::Integer(x))
            =~= xs.map_values(|x: i64| IRV::Integer(x)));
    }
}

/// A send with integer literal arguments to an integer target compiles to the arguments
/// pushed in order, then the target, then the send: the code of `n{sel: x1 ... xk}` is
/// `x1 ... xk n Send(sel)`.
pub proof fn law_send_code_order(st: Seq<CFrameV>, sel: Selector, target: i64, args: Vec<Expr>, xs: Seq<i64>)
    requires
        args@.len() == xs.len(),
        forall|i: int| 0 <= i < args@.len() ==> #[trigger] args@[i] == Expr::Integer(xs[i]),
    ensures
        c_expr(st, Expr::Send(sel, Box::new(Expr::Integer(target)), args)) == Out::Done(
            st,
            xs.map_values(|x: i64| IRV::Integer(x)) + seq![IRV::Integer(target), IRV::Send(sel@)],
        ),
{
    law_integer_args_in_order(st, args@, xs);
    let code = xs.map_values(|x: i64| IRV::Integer(x));
    let e = Expr::Send(sel, Box::new(Expr::Integer(target)), args);
    assert(c_target(st, Expr::Integer(target)) == Out::Done(st, seq![IRV::Integer(target)]));
    assert(c_expr(st, e) == Out::Done(st, code + seq![IRV::Integer(target)] + seq![IRV::Send(sel@)]));
    assert(code + seq![IRV::Integer(target)] + seq![IRV::Send(sel@)] =~= code + seq![IRV::Integer(target), IRV::Send(sel@)]);
}

/// Compiling an object literal (or a do-block): each handler is compiled in a frame of its
/// own, the captures of one handler carried on to the next; then the captured values are
/// pushed and the object is built.
pub closed spec fn c_object(st: Seq<CFrameV>, o: Object, is_do: bool) -> Out<Seq<IRV>>
    decreases o, 1nat,
{
    match c_handlers(st, o.handlers@, Map::empty(), Seq::empty(), classv_empty(), is_do) {
        Out::Done(st1, (imap, ivs, class)) => {
            let cls = ClassV { ivals: ivs.len(), ..class };
            Out::Done(
                st1,
                ivals_ir(ivs).push(if is_do { IRV::DoObject(cls) } else { IRV::Object(cls) }),
            )
        },
        Out::Failed(e) => Out::Failed(e),
        Out::Fault => Out::Fault,
    }
}

/// Compiling handlers in order, threading the captures and the class being built.
pub closed spec fn c_handlers(
    st: Seq<CFrameV>,
    hs: Seq<(String, Handler)>,
    imap: Map<Seq<char>, BindingRecord>,
    ivs: Seq<BindingRecord>,
    class: ClassV,
    is_do: bool,
) -> Out<(Map<Seq<char>, BindingRecord>, Seq<BindingRecord>, ClassV)>
    decreases hs, 0nat,
{
    if hs.len() == 0 {
        Out::Done(st, (imap, ivs, class))
    } else {
        let sel = hs[0].0;
        let h = hs[0].1;
        let st1 = st.push(new_handler_frame(is_do, imap, ivs));
        match c_params(st1, h.params@) {
            None => Out::Fault,
            Some((st2, ps)) => match c_body(st2, h.body@) {
                Out::Done(st3, body) => c_handlers(
                    st3.drop_last(),
                    hs.drop_first(),
                    st3.last().ival_map,
                    st3.last().ivals,
                    classv_add(class, sel@, HandlerV { params: ps, body }),
                    is_do,
                ),
                Out::Failed(e) => Out::Failed(e),
                Out::Fault => Out::Fault,
            },
        }
    }
}

/// Compiling a body: its statements, leaving the value of the last one (unit for an
/// empty body).
pub open spec fn c_body(st: Seq<CFrameV>, b: Seq<Stmt>) -> Out<Seq<IRV>>
    decreases b, 1nat,
{
    if b.len() == 0 {
        Out::Done(st, seq![IRV::Unit])
    } else {
        c_stmts(st, b)
    }
}

/// Compiling a non-empty statement list: all but the last drop their value.
pub open spec fn c_stmts(st: Seq<CFrameV>, b: Seq<Stmt>) -> Out<Seq<IRV>>
    decreases b, 0nat,
{
    if b.len() == 0 {
        Out::Done(st, Seq::empty())
    } else if b.len() == 1 {
        c_last(st, b[0])
    } else {
        match c_most(st, b[0]) {
            Out::Done(st1, x) => match c_stmts(st1, b.drop_first()) {
                Out::Done(st2, y) => Out::Done(st2, x + y),
                Out::Failed(e) => Out::Failed(e),
                Out::Fault => Out::Fault,
            },
            Out::Failed(e) => Out::Failed(e),
            Out::Fault => Out::Fault,
        }
    }
}

/// A statement that is not the last: an expression's value is dropped.
pub open spec fn c_most(st: Seq<CFrameV>, s: Stmt) -> Out<Seq<IRV>>
    decreases s, 1nat,
{
    match s {
        Stmt::Expr(_) => match c_base(st, s) {
            Out::Done(st1, x) => Out::Done(st1, x.push(IRV::Drop)),
            Out::Failed(e) => Out::Failed(e),
            Out::Fault => Out::Fault,
        },
        _ => c_base(st, s),
    }
}

/// The last statement: a binding statement leaves unit.
pub open spec fn c_last(st: Seq<CFrameV>, s: Stmt) -> Out<Seq<IRV>>
    decreases s, 1nat,
{
    match s {
        Stmt::Expr(_) => c_base(st, s),
        _ => match c_base(st, s) {
            Out::Done(st1, x) => Out::Done(st1, x.push(IRV::Unit)),
            Out::Failed(e) => Out::Failed(e),
            Out::Fault => Out::Fault,
        },
    }
}

/// A statement's own code.
pub open spec fn c_base(st: Seq<CFrameV>, s: Stmt) -> Out<Seq<IRV>>
    decreases s, 0nat,
{
    match s {
        Stmt::Expr(e) => c_expr(st, e),
        Stmt::Let(b, e) => match c_expr(st, e) {
            Out::Done(st1, x) => match b_let(st1, b) {
                Some(st2) => Out::Done(st2, x),
                None => Out::Fault,
            },
            Out::Failed(e) => Out::Failed(e),
            Out::Fault => Out::Fault,
        },
        Stmt::Var(b, e) => match c_expr(st, e) {
            Out::Done(st1, x) => match b_var(st1, b) {
                Out::Done(st2, y) => Out::Done(st2, x + y),
                Out::Failed(e) => Out::Failed(e),
                Out::Fault => Out::Fault,
            },
            Out::Failed(e) => Out::Failed(e),
            Out::Fault => Out::Fault,
        },
        Stmt::Assign(b, e) => match c_expr(st, e) {
            Out::Done(st1, x) => match b_set(st1, b) {
                Out::Done(st2, y) => Out::Done(st2, x + y),
                Out::Failed(e) => Out::Failed(e),
                Out::Fault => Out::Fault,
            },
            Out::Failed(e) => Out::Failed(e),
            Out::Fault => Out::Fault,
        },
    }
}

proof fn lemma_ivals_ir_len(ivs: Seq<BindingRecord>)
    ensures
        ivals_ir(ivs).len() == ivs.len(),
    decreases ivs.len(),
{
    if ivs.len() > 0 {
        lemma_ivals_ir_len(ivs.drop_last());
    }
}

/// The code of an object literal (or a do-block) pushes the values it captures and then
/// builds the object, and the class built expects exactly as many instance values as
/// were pushed.
pub proof fn law_object_captures(st: Seq<CFrameV>, o: Object, is_do: bool)
    requires
        c_object(st, o, is_do) is Done,
    ensures
        ({
            let code = c_object(st, o, is_do)->Done_1;
            &&& code.len() >= 1
            &&& match code.last() {
                IRV::Object(c) => !is_do && c.ivals == code.len() - 1,
                IRV::DoObject(c) => is_do && c.ivals == code.len() - 1,
                _ => false,
            }
        }),
{
    match c_handlers(st, o.handlers@, Map::empty(), Seq::empty(), classv_empty(), is_do) {
        Out::Done(_, (_, ivs, _)) => {
            lemma_ivals_ir_len(ivs);
        },
        _ => {},
    }
}

proof fn lemma_integer_statement(st: Seq<CFrameV>, x: i64)
    ensures
        c_most(st, Stmt::Expr(Expr::Integer(x))) == Out::Done(st, seq![IRV::Integer(x), IRV::Drop]),
        c_last(st, Stmt::Expr(Expr::Integer(x))) == Out::Done(st, seq![IRV::Integer(x)]),
{
    assert(c_base(st, Stmt::Expr(Expr::Integer(x))) == Out::Done(st, seq![IRV::Integer(x)]));
    assert(seq![IRV::Integer(x)].push(IRV::Drop) =~= seq![IRV::Integer(x), IRV::Drop]);
}

/// Whether `code` holds the integers `xs` at its even places and `Drop` at its odd ones.
pub open spec fn interleaved_drops(code: Seq<IRV>, xs: Seq<i64>) -> bool {
    &&& code.len() == 2 * xs.len() - 1
    &&& forall|k: int| 0 <= k < code.len() && k % 2 == 0 ==> #[trigger] code[k] == IRV::Integer(xs[k / 2])
    &&& forall|k: int| 0 <= k < code.len() && k % 2 == 1 ==> #[trigger] code[k] == IRV::Drop
}

proof fn lemma_interleaved_cons(rest: Seq<IRV>, xs: Seq<i64>)
    requires
        xs.len() >= 2,
        interleaved_drops(rest, xs.drop_first()),
    ensures
        interleaved_drops(seq![IRV::Integer(xs[0]), IRV::Drop] + rest, xs),
{
    let code = seq![IRV::Integer(xs[0]), IRV::Drop] + rest;
    assert forall|k: int| 0 <= k < code.len() && k % 2 == 0 implies #[trigger] code[k] == IRV::Integer(xs[k / 2]) by {
        if k >= 2 {
            assert(code[k] == rest[k - 2]);
            assert((k - 2) % 2 == 0 && (k - 2) / 2 == k / 2 - 1);
            assert(rest[k - 2] == IRV::Integer(xs.drop_first()[(k - 2) / 2]));
        }
    }
    assert forall|k: int| 0 <= k < code.len() && k % 2 == 1 implies #[trigger] code[k] == IRV::Drop by {
        if k >= 2 {
            assert(code[k] == rest[k - 2]);
            assert((k - 2) % 2 == 1);
        }
    }
}

/// Statements compile in the order they are written, each but the last dropping its
/// value: a body of integer literal statements `x0 ... xn` compiles to
/// `x0 Drop x1 Drop ... xn`, the literals at the even places in order and `Drop` at the
/// odd ones, and leaves the compiler frames as they were.
pub proof fn law_statements_in_order(st: Seq<CFrameV>, ss: Seq<Stmt>, xs: Seq<i64>)
    requires
        xs.len() >= 1,
        ss.len() == xs.len(),
        forall|i: int| 0 <= i < ss.len() ==> #[trigger] ss[i] == Stmt::Expr(Expr::Integer(xs[i])),
    ensures
        c_body(st, ss) matches Out::Done(st2, code) && st2 == st && interleaved_drops(code, xs),
    decreases xs.len(),
{
    lemma_integer_statement(st, xs[0]);
    assert(ss[0] == Stmt::Expr(Expr::Integer(xs[0])));
    if xs.len() == 1 {
        assert(interleaved_drops(seq![IRV::Integer(xs[0])], xs));
    } else {
        let tail = ss.drop_first();
        assert forall|i: int| 0 <= i < tail.len() implies #[trigger] tail[i]
            == Stmt::Expr(Expr::Integer(xs.drop_first()[i])) by {
            assert(ss[i + 1] == Stmt::Expr(Expr::Integer(xs[i + 1])));
        }
        law_statements_in_order(st, tail, xs.drop_first());
        let rest = c_body(st, tail)->Done_1;
        lemma_interleaved_cons(rest, xs);
    }
}

/// The frames a fresh compiler starts with: the root alone.
pub open spec fn root_frames() -> Seq<CFrameV> {
    seq![
        CFrameV {
            kind: FrameKind::Root,
            locals: Map::empty(),
            next_index: 0,
            ival_map: Map::empty(),
            ivals: Seq::empty(),
        },
    ]
}

/// An expression statement that is not the last has its value dropped: it compiles as
/// it would last, with `Drop` after; a binding statement compiles the same in either place.
pub proof fn law_most_drops_expr_value(st: Seq<CFrameV>, s: Stmt)
    ensures
        s is Expr ==> match (c_most(st, s), c_last(st, s)) {
            (Out::Done(st1, x), Out::Done(st2, y)) => st1 == st2 && x == y.push(IRV::Drop),
            (Out::Failed(e1), Out::Failed(e2)) => e1 == e2,
            (Out::Fault, Out::Fault) => true,
            _ => false,
        },
        !(s is Expr) ==> c_most(st, s) == c_base(st, s),
{
}

/// A last statement that binds a name leaves unit as the body's value: it compiles as it
/// would elsewhere, with `Unit` after; an expression statement compiles the same last.
pub proof fn law_last_binding_leaves_unit(st: Seq<CFrameV>, s: Stmt)
    ensures
        !(s is Expr) ==> match (c_last(st, s), c_most(st, s)) {
            (Out::Done(st1, x), Out::Done(st2, y)) => st1 == st2 && x == y.push(IRV::Unit),
            (Out::Failed(e1), Out::Failed(e2)) => e1 == e2,
            (Out::Fault, Out::Fault) => true,
            _ => false,
        },
        s is Expr ==> c_last(st, s) == c_base(st, s),
{
}

/// What compiling a whole program gives: its code, a compile error, or `None` where the
/// compiler would panic.
pub open spec fn spec_program(program: Seq<Stmt>) -> Option<Result<Seq<IRV>, CompileErrorV>> {
    match c_body(root_frames(), program) {
        Out::Done(_, ir) => Some(Ok(ir)),
        Out::Failed(e) => Some(Err(e)),
        Out::Fault => None,
    }
}

/// The compile result matches the spec outcome.
pub open spec fn matches_out(o: Out<Seq<IRV>>, r: CompileIR, after: Seq<CFrameV>) -> bool {
    match o {
        Out::Done(st, ir) => r matches Ok(b) && b@ == ir && after == st,
        Out::Failed(e) => r matches Err(e2) && error_view(e2) == e,
        Out::Fault => false,
    }
}


impl Binding {
    fn compile_let(self, compiler: &mut Compiler)
        requires
            old(compiler).wf(),
            b_let(old(compiler).frames_v(), self) is Some,
        ensures
            final(compiler).wf(),
            final(compiler).frames_v() == b_let(old(compiler).frames_v(), self).unwrap(),
    {
        match self {
            Self::Identifier(name) => compiler.add_let(name),
            _ => vstd::pervasive::unreached(),
        }
    }

    fn compile_var(self, compiler: &mut Compiler) -> (r: CompileIR)
        requires
            old(compiler).wf(),
            !(b_var(old(compiler).frames_v(), self) is Fault),
        ensures
            final(compiler).wf(),
            matches_out(b_var(old(compiler).frames_v(), self), r, final(compiler).frames_v()),
    {
        match self {
            Self::Identifier(name) => compiler.add_var(name),
            _ => vstd::pervasive::unreached(),
        }
    }

    fn compile_set(self, compiler: &mut Compiler) -> (r: CompileIR)
        requires
            old(compiler).wf(),
            !(b_set(old(compiler).frames_v(), self) is Fault),
        ensures
            final(compiler).wf(),
            matches_out(b_set(old(compiler).frames_v(), self), r, final(compiler).frames_v()),
            final(compiler).frames_v().len() == old(compiler).frames_v().len(),
    {
        match self {
            Self::Identifier(name) => compiler.set(name),
            _ => vstd::pervasive::unreached(),
        }
    }

    fn compile_param(self, compiler: &mut Compiler) -> (p: Param)
        requires
            old(compiler).wf(),
            b_param(old(compiler).frames_v(), self) is Some,
        ensures
            final(compiler).wf(),
            b_param(old(compiler).frames_v(), self) == Some((final(compiler).frames_v(), p)),
            final(compiler).frames_v().len() == old(compiler).frames_v().len(),
    {
        match self {
            Self::Identifier(name) => {
                compiler.add_let(name);
                Param::Value
            },
            Self::VarIdentifier(name) => {
                compiler.add_var_param(name);
                Param::Var
            },
            Self::DoIdentifier(name) => {
                compiler.add_do_param(name);
                Param::Do
            },
        }
    }
}

fn compile_params(params: Vec<Binding>, compiler: &mut Compiler) -> (ps: Vec<Param>)
    requires
        old(compiler).wf(),
        c_params(old(compiler).frames_v(), params@) is Some,
    ensures
        final(compiler).wf(),
        c_params(old(compiler).frames_v(), params@) == Some((final(compiler).frames_v(), ps@)),
        final(compiler).frames_v().len() == old(compiler).frames_v().len(),
{
    let mut params = params;
    let mut out: Vec<Param> = Vec::new();
    let ghost all = params@;
    let ghost st0 = compiler.frames_v();
    while params.len() > 0
        invariant
            compiler.wf(),
            compiler.frames_v().len() == st0.len(),
            c_params(st0, all) is Some,
            c_params(compiler.frames_v(), params@) is Some,
            c_params(st0, all) == Some(
                (
                    c_params(compiler.frames_v(), params@).unwrap().0,
                    out@ + c_params(compiler.frames_v(), params@).unwrap().1,
                ),
            ),
        decreases params@.len(),
    {
        let ghost before = params@;
        let b = params.remove(0);
        assert(params@ == before.drop_first());
        let p = b.compile_param(compiler);
        out.push(p);
        proof {
            let rest = c_params(compiler.frames_v(), params@).unwrap().1;
            assert(out@ + rest =~= out@.drop_last() + (seq![p] + rest));
        }
    }
    proof {
        assert(out@ + Seq::<Param>::empty() =~= out@);
    }
    out
}

impl Expr {
    fn compile(self, compiler: &mut Compiler) -> (r: CompileIR)
        requires
            old(compiler).wf(),
            !(c_expr(old(compiler).frames_v(), self) is Fault),
        ensures
            final(compiler).wf(),
            matches_out(c_expr(old(compiler).frames_v(), self), r, final(compiler).frames_v()),
            r is Ok ==> final(compiler).frames_v().len() == old(compiler).frames_v().len(),
        decreases self, 0nat,
    {
        match self {
            Self::Integer(value) => {
                let v = vec![IR::Integer(value)];
                proof {
                    lemma_body_view(v@);
                    assert(body_view(v@) =~= seq![IRV::Integer(value)]);
                }
                Ok(IRBuilder::from(v))
            },
            Self::Identifier(name) => compiler.identifier(name),
            Self::Send(selector, target, args) => {
                let mut ir = compile_args(args, compiler)?;
                let t = (*target).compile_target(compiler)?;
                let ghost a = ir@;
                let ghost tt = t@;
                ir.append(t);
                ir.push(IR::Send(selector));
                proof {
                    assert(ir@ =~= a + tt + seq![IRV::Send(selector@)]);
                }
                Ok(ir)
            },
            Self::Object(obj) => obj.compile(compiler),
            Self::VarArg(_) => vstd::pervasive::unreached(),
            Self::DoArg(_) => vstd::pervasive::unreached(),
            Self::Frame(..) => vstd::pervasive::unreached(),
        }
    }

    fn compile_arg(self, compiler: &mut Compiler) -> (r: CompileIR)
        requires
            old(compiler).wf(),
            !(c_arg(old(compiler).frames_v(), self) is Fault),
        ensures
            final(compiler).wf(),
            matches_out(c_arg(old(compiler).frames_v(), self), r, final(compiler).frames_v()),
            r is Ok ==> final(compiler).frames_v().len() == old(compiler).frames_v().len(),
        decreases self, 1nat,
    {
        match self {
            Self::VarArg(name) => compiler.var_arg(name),
            Self::DoArg(obj) => obj.compile_do(compiler),
            Self::Identifier(name) => compiler.arg_identifier(name),
            _ => self.compile(compiler),
        }
    }

    fn compile_target(self, compiler: &mut Compiler) -> (r: CompileIR)
        requires
            old(compiler).wf(),
            !(c_target(old(compiler).frames_v(), self) is Fault),
        ensures
            final(compiler).wf(),
            matches_out(c_target(old(compiler).frames_v(), self), r, final(compiler).frames_v()),
            r is Ok ==> final(compiler).frames_v().len() == old(compiler).frames_v().len(),
        decreases self, 1nat,
    {
        match self {
            Self::DoArg(obj) => obj.compile_do(compiler),
            Self::Identifier(name) => compiler.target_identifier(name),
            _ => self.compile(compiler),
        }
    }
}

fn compile_args(args: Vec<Expr>, compiler: &mut Compiler) -> (r: CompileIR)
    requires
        old(compiler).wf(),
        !(c_args(old(compiler).frames_v(), args@) is Fault),
    ensures
        final(compiler).wf(),
        matches_out(c_args(old(compiler).frames_v(), args@), r, final(compiler).frames_v()),
        r is Ok ==> final(compiler).frames_v().len() == old(compiler).frames_v().len(),
    decreases args@, 0nat,
{
    let mut args = args;
    if args.len() == 0 {
        return Ok(IRBuilder::new());
    }
    let ghost all = args@;
    let first = args.remove(0);
    assert(args@ == all.drop_first());
    let mut ir = first.compile_arg(compiler)?;
    let rest = compile_args(args, compiler)?;
    ir.append(rest);
    Ok(ir)
}

impl Object {
    fn compile(self, compiler: &mut Compiler) -> (r: CompileIR)
        requires
            old(compiler).wf(),
            !(c_object(old(compiler).frames_v(), self, false) is Fault),
        ensures
            final(compiler).wf(),
            matches_out(c_object(old(compiler).frames_v(), self, false), r, final(compiler).frames_v()),
            r is Ok ==> final(compiler).frames_v().len() == old(compiler).frames_v().len(),
        decreases self, 1nat,
    {
        let (ivals, mut class) = compile_handlers(self.handlers, compiler, IVals::new(), Class::new(), false)?;
        class.set_ivals(ivals.count());
        let mut out = ivals.compile()?;
        out.push(IR::Object(class.rc()));
        Ok(out)
    }

    fn compile_do(self, compiler: &mut Compiler) -> (r: CompileIR)
        requires
            old(compiler).wf(),
            !(c_object(old(compiler).frames_v(), self, true) is Fault),
        ensures
            final(compiler).wf(),
            matches_out(c_object(old(compiler).frames_v(), self, true), r, final(compiler).frames_v()),
            r is Ok ==> final(compiler).frames_v().len() == old(compiler).frames_v().len(),
        decreases self, 1nat,
    {
        let (ivals, mut class) = compile_handlers(self.handlers, compiler, IVals::new(), Class::new(), true)?;
        class.set_ivals(ivals.count());
        let mut out = ivals.compile()?;
        out.push(IR::DoObject(class.rc()));
        Ok(out)
    }
}

fn compile_handlers(
    hs: Vec<(String, Handler)>,
    compiler: &mut Compiler,
    ivals: IVals,
    class: Class,
    is_do: bool,
) -> (r: Compile<(IVals, Class)>)
    requires
        old(compiler).wf(),
        !(c_handlers(old(compiler).frames_v(), hs@, ivals.map@, ivals.ivals@, class_view(class), is_do) is Fault),
    ensures
        final(compiler).wf(),
        match c_handlers(old(compiler).frames_v(), hs@, ivals.map@, ivals.ivals@, class_view(class), is_do) {
            Out::Done(st, (imap, ivs, cls)) => r matches Ok((iv, c)) && iv.map@ == imap && iv.ivals@ == ivs
                && class_view(c) == cls && final(compiler).frames_v() == st,
            Out::Failed(e) => r matches Err(e2) && error_view(e2) == e,
            Out::Fault => false,
        },
        r is Ok ==> final(compiler).frames_v().len() == old(compiler).frames_v().len(),
    decreases hs@, 0nat,
{
    let mut hs = hs;
    let mut class = class;
    if hs.len() == 0 {
        return Ok((ivals, class));
    }
    let ghost all = hs@;
    let ghost st = compiler.frames_v();
    let ghost imap = ivals.map@;
    let ghost ivs = ivals.ivals@;
    let ghost cv = class_view(class);
    let (selector, handler) = hs.remove(0);
    assert(hs@ == all.drop_first());
    assert(all[0] == (selector, handler));
    if is_do {
        compiler.do_handler(ivals);
    } else {
        compiler.handler(ivals);
    }
    let ghost st1 = compiler.frames_v();
    assert(st1 == st.push(new_handler_frame(is_do, imap, ivs)));
    let params = compile_params(handler.params, compiler);
    let ghost st2 = compiler.frames_v();
    assert(c_params(st1, handler.params@) == Some((st2, params@)));
    let ir = compiler.body(handler.body)?;
    let ghost body_ir = ir@;
    let ghost st3 = compiler.frames_v();
    assert(c_body(st2, handler.body@) == Out::<Seq<IRV>>::Done(st3, body_ir));
    let code = ir.to_vec();
    class.add_handler(selector, params, code);
    assert(class_view(class) == classv_add(cv, selector@, HandlerV { params: params@, body: body_ir }));
    let ivals = compiler.end_handler();
    assert(c_handlers(st, all, imap, ivs, cv, is_do) == c_handlers(
        st3.drop_last(),
        hs@,
        ivals.map@,
        ivals.ivals@,
        class_view(class),
        is_do,
    ));
    compile_handlers(hs, compiler, ivals, class, is_do)
}

impl Compiler {
    /// Compiles a body: the statements in order, all but the last dropping their value;
    /// the last leaves the body's value (unit when the body is empty or ends in a binding).
    pub fn body(&mut self, body: Vec<Stmt>) -> (r: CompileIR)
        requires
            old(self).wf(),
            !(c_body(old(self).frames_v(), body@) is Fault),
        ensures
            final(self).wf(),
            matches_out(c_body(old(self).frames_v(), body@), r, final(self).frames_v()),
            r is Ok ==> final(self).frames_v().len() == old(self).frames_v().len(),
        decreases body@, 1nat,
    {
        if body.len() == 0 {
            let mut builder = IRBuilder::new();
            builder.push(IR::Unit);
            return Ok(builder);
        }
        compile_stmts(body, self)
    }

    /// Compiles a program (its top-level statements).
    pub fn program(program: Vec<Stmt>) -> (r: Compile<Vec<IR>>)
        requires
            spec_program(program@) is Some,
        ensures
            match spec_program(program@).unwrap() {
                Ok(ir) => r matches Ok(v) && body_view(v@) == ir,
                Err(e) => r matches Err(e2) && error_view(e2) == e,
            },
    {
        let mut compiler = Compiler::new();
        let out = compiler.body(program)?;
        Ok(out.to_vec())
    }
}

fn compile_stmts(stmts: Vec<Stmt>, compiler: &mut Compiler) -> (r: CompileIR)
    requires
        old(compiler).wf(),
        !(c_stmts(old(compiler).frames_v(), stmts@) is Fault),
    ensures
        final(compiler).wf(),
        matches_out(c_stmts(old(compiler).frames_v(), stmts@), r, final(compiler).frames_v()),
        r is Ok ==> final(compiler).frames_v().len() == old(compiler).frames_v().len(),
    decreases stmts@, 0nat,
{
    let mut stmts = stmts;
    if stmts.len() == 0 {
        return Ok(IRBuilder::new());
    }
    let ghost all = stmts@;
    let first = stmts.remove(0);
    assert(stmts@ == all.drop_first());
    if stmts.len() == 0 {
        return first.compile_last(compiler);
    }
    let mut ir = first.compile_most(compiler)?;
    let rest = compile_stmts(stmts, compiler)?;
    ir.append(rest);
    Ok(ir)
}

impl Stmt {
    fn compile_base(self, compiler: &mut Compiler) -> (r: CompileIR)
        requires
            old(compiler).wf(),
            !(c_base(old(compiler).frames_v(), self) is Fault),
        ensures
            final(compiler).wf(),
            matches_out(c_base(old(compiler).frames_v(), self), r, final(compiler).frames_v()),
            r is Ok ==> final(compiler).frames_v().len() == old(compiler).frames_v().len(),
        decreases self, 0nat,
    {
        match self {
            Self::Expr(expr) => expr.compile(compiler),
            Self::Let(binding, expr) => Self::compile_let_stmt(binding, expr, compiler),
            Self::Var(binding, expr) => Self::compile_var_stmt(binding, expr, compiler),
            Self::Assign(binding, expr) => Self::compile_assign_stmt(binding, expr, compiler),
        }
    }

    fn compile_let_stmt(binding: Binding, expr: Expr, compiler: &mut Compiler) -> (r: CompileIR)
        requires
            old(compiler).wf(),
            !(c_base(old(compiler).frames_v(), Stmt::Let(binding, expr)) is Fault),
        ensures
            final(compiler).wf(),
            matches_out(c_base(old(compiler).frames_v(), Stmt::Let(binding, expr)), r, final(compiler).frames_v()),
            r is Ok ==> final(compiler).frames_v().len() == old(compiler).frames_v().len(),
        decreases expr, 1nat,
    {
        let ir = expr.compile(compiler)?;
        binding.compile_let(compiler);
        Ok(ir)
    }

    fn compile_var_stmt(binding: Binding, expr: Expr, compiler: &mut Compiler) -> (r: CompileIR)
        requires
            old(compiler).wf(),
            !(c_base(old(compiler).frames_v(), Stmt::Var(binding, expr)) is Fault),
        ensures
            final(compiler).wf(),
            matches_out(c_base(old(compiler).frames_v(), Stmt::Var(binding, expr)), r, final(compiler).frames_v()),
            r is Ok ==> final(compiler).frames_v().len() == old(compiler).frames_v().len(),
        decreases expr, 1nat,
    {
        let mut ir = expr.compile(compiler)?;
        let var_ir = binding.compile_var(compiler)?;
        ir.append(var_ir);
        Ok(ir)
    }

    fn compile_assign_stmt(binding: Binding, expr: Expr, compiler: &mut Compiler) -> (r: CompileIR)
        requires
            old(compiler).wf(),
            !(c_base(old(compiler).frames_v(), Stmt::Assign(binding, expr)) is Fault),
        ensures
            final(compiler).wf(),
            matches_out(c_base(old(compiler).frames_v(), Stmt::Assign(binding, expr)), r, final(compiler).frames_v()),
            r is Ok ==> final(compiler).frames_v().len() == old(compiler).frames_v().len(),
        decreases expr, 1nat,
    {
        let ghost st0 = compiler.frames_v();
        let mut ir = expr.compile(compiler)?;
        let ghost st1 = compiler.frames_v();
        let ghost x = ir@;
        assert(c_expr(st0, expr) == Out::<Seq<IRV>>::Done(st1, x));
        let y = binding.compile_set(compiler)?;
        let ghost yv = y@;
        assert(b_set(st1, binding) == Out::<Seq<IRV>>::Done(compiler.frames_v(), yv));
        ir.append(y);
        Ok(ir)
    }

    fn compile_most(self, compiler: &mut Compiler) -> (r: CompileIR)
        requires
            old(compiler).wf(),
            !(c_most(old(compiler).frames_v(), self) is Fault),
        ensures
            final(compiler).wf(),
            matches_out(c_most(old(compiler).frames_v(), self), r, final(compiler).frames_v()),
            r is Ok ==> final(compiler).frames_v().len() == old(compiler).frames_v().len(),
        decreases self, 1nat,
    {
        match self {
            Self::Expr(_) => {
                let mut ir = self.compile_base(compiler)?;
                ir.push(IR::Drop);
                Ok(ir)
            },
            _ => self.compile_base(compiler),
        }
    }

    fn compile_last(self, compiler: &mut Compiler) -> (r: CompileIR)
        requires
            old(compiler).wf(),
            !(c_last(old(compiler).frames_v(), self) is Fault),
        ensures
            final(compiler).wf(),
            matches_out(c_last(old(compiler).frames_v(), self), r, final(compiler).frames_v()),
            r is Ok ==> final(compiler).frames_v().len() == old(compiler).frames_v().len(),
        decreases self, 1nat,
    {
        match self {
            Self::Expr(_) => self.compile_base(compiler),
            _ => {
                let mut ir = self.compile_base(compiler)?;
                ir.push(IR::Unit);
                Ok(ir)
            },
        }
    }
}

} // verus!
