use vstd::prelude::*;

use crate::assoc::{entries_map, keys_distinct, Assoc};
use crate::ir::{body_view, ir_view, lemma_body_view, lemma_body_view_concat, lemma_body_view_push, IRV, IR};
use crate::runtime_2::{Address, Index};

verus! {

/// Errors of the module compiler.
#[derive(Debug, Clone, PartialEq)]
pub enum CompileError {
    UnknownIdentifier(String),
    InvalidSet(String),
    InvalidVarReference(String),
    InvalidVarArg(String),
    InvalidDoReference(String),
    DuplicateExport(String),
    InvalidExport(String),
}

pub type Compile<T> = Result<T, CompileError>;

/// The view of a compile error.
pub enum CompileErrorV {
    UnknownIdentifier(Seq<char>),
    InvalidSet(Seq<char>),
    InvalidVarReference(Seq<char>),
    InvalidVarArg(Seq<char>),
    InvalidDoReference(Seq<char>),
    DuplicateExport(Seq<char>),
    InvalidExport(Seq<char>),
}

pub open spec fn error_view(e: CompileError) -> CompileErrorV {
    match e {
        CompileError::UnknownIdentifier(s) => CompileErrorV::UnknownIdentifier(s@),
        CompileError::InvalidSet(s) => CompileErrorV::InvalidSet(s@),
        CompileError::InvalidVarReference(s) => CompileErrorV::InvalidVarReference(s@),
        CompileError::InvalidVarArg(s) => CompileErrorV::InvalidVarArg(s@),
        CompileError::InvalidDoReference(s) => CompileErrorV::InvalidDoReference(s@),
        CompileError::DuplicateExport(s) => CompileErrorV::DuplicateExport(s@),
        CompileError::InvalidExport(s) => CompileErrorV::InvalidExport(s@),
    }
}

/// Where a name's value lives: a local slot, a local var cell, a local do-block, or the
/// same three kinds held as instance values of the enclosing object.
#[derive(Debug, Clone, Copy, PartialEq)]
pub enum BindingRecord {
    Local(Address),
    Var(Address),
    Do(Address),
    IVal(Index),
    VarIVal(Index),
    DoIVal(Index),
}

/// How a binding captured by an object handler is seen inside it: locals and instance
/// values become instance values; vars and do-blocks cannot be captured.
pub open spec fn capture_in_handler(r: BindingRecord, next_index: Index, key: Seq<char>) -> Result<BindingRecord, CompileErrorV> {
    match r {
        BindingRecord::Local(_) => Ok(BindingRecord::IVal(next_index)),
        BindingRecord::IVal(_) => Ok(BindingRecord::IVal(next_index)),
        _ => Err(CompileErrorV::InvalidVarReference(key)),
    }
}

/// How a binding captured by a do-block handler is seen inside it: every kind is kept,
/// as an instance value.
pub open spec fn capture_in_do(r: BindingRecord, next_index: Index) -> BindingRecord {
    match r {
        BindingRecord::Local(_) => BindingRecord::IVal(next_index),
        BindingRecord::IVal(_) => BindingRecord::IVal(next_index),
        BindingRecord::Var(_) => BindingRecord::VarIVal(next_index),
        BindingRecord::VarIVal(_) => BindingRecord::VarIVal(next_index),
        BindingRecord::Do(_) => BindingRecord::DoIVal(next_index),
        BindingRecord::DoIVal(_) => BindingRecord::DoIVal(next_index),
    }
}

impl BindingRecord {
    fn as_handler_ival(self, next_index: Index, key: &String) -> (r: Compile<Self>)
        ensures
            match capture_in_handler(self, next_index, key@) {
                Ok(rec) => r == Ok::<BindingRecord, CompileError>(rec),
                Err(e) => r matches Err(e2) && error_view(e2) == e,
            },
    {
        match self {
            Self::Local(_) => Ok(Self::IVal(next_index)),
            Self::IVal(_) => Ok(Self::IVal(next_index)),
            _ => Err(CompileError::InvalidVarReference(key.clone())),
        }
    }

    fn as_do_handler_ival(self, next_index: Index) -> (r: Self)
        ensures
            r == capture_in_do(self, next_index),
    {
        match self {
            Self::Local(_) => Self::IVal(next_index),
            Self::IVal(_) => Self::IVal(next_index),
            Self::Var(_) => Self::VarIVal(next_index),
            Self::VarIVal(_) => Self::VarIVal(next_index),
            Self::Do(_) => Self::DoIVal(next_index),
            Self::DoIVal(_) => Self::DoIVal(next_index),
        }
    }
}

/// The code that pushes a captured binding's value when an object is built: the slot or
/// instance value it lives in.
pub open spec fn record_ival(r: BindingRecord) -> IRV {
    match r {
        BindingRecord::Local(a) => IRV::Local(a),
        BindingRecord::Var(a) => IRV::Local(a),
        BindingRecord::Do(a) => IRV::Local(a),
        BindingRecord::IVal(i) => IRV::IVal(i),
        BindingRecord::VarIVal(i) => IRV::IVal(i),
        BindingRecord::DoIVal(i) => IRV::IVal(i),
    }
}

/// The code that reads a name as a value: a var is dereferenced; a do-block cannot be read.
pub open spec fn record_identifier(r: BindingRecord, key: Seq<char>) -> Result<Seq<IRV>, CompileErrorV> {
    match r {
        BindingRecord::Local(a) => Ok(seq![IRV::Local(a)]),
        BindingRecord::Var(a) => Ok(seq![IRV::Local(a), IRV::Deref]),
        BindingRecord::IVal(i) => Ok(seq![IRV::IVal(i)]),
        BindingRecord::VarIVal(i) => Ok(seq![IRV::IVal(i), IRV::Deref]),
        BindingRecord::Do(_) => Err(CompileErrorV::InvalidDoReference(key)),
        BindingRecord::DoIVal(_) => Err(CompileErrorV::InvalidDoReference(key)),
    }
}

/// The code that reads a name as the target or an argument of a send: a do-block is
/// passed as it is; anything else as it is read.
pub open spec fn record_passed(r: BindingRecord, key: Seq<char>) -> Result<Seq<IRV>, CompileErrorV> {
    match r {
        BindingRecord::Do(a) => Ok(seq![IRV::Local(a)]),
        BindingRecord::DoIVal(i) => Ok(seq![IRV::IVal(i)]),
        _ => record_identifier(r, key),
    }
}

/// The code that passes a var as a `var` argument: its cell, not its value.
pub open spec fn record_var_arg(r: BindingRecord, key: Seq<char>) -> Result<Seq<IRV>, CompileErrorV> {
    match r {
        BindingRecord::Var(a) => Ok(seq![IRV::Local(a)]),
        BindingRecord::VarIVal(i) => Ok(seq![IRV::IVal(i)]),
        _ => Err(CompileErrorV::InvalidVarArg(key)),
    }
}

/// The code that stores the value on the stack into a var; only a var can be set.
pub open spec fn record_set(r: BindingRecord, key: Seq<char>) -> Result<Seq<IRV>, CompileErrorV> {
    match r {
        BindingRecord::Var(a) => Ok(seq![IRV::Local(a), IRV::SetVar]),
        BindingRecord::VarIVal(i) => Ok(seq![IRV::IVal(i), IRV::SetVar]),
        _ => Err(CompileErrorV::InvalidSet(key)),
    }
}

/// Code being put together.
pub struct IRBuilder {
    ir: Vec<IR>,
}

impl View for IRBuilder {
    type V = Seq<IRV>;

    closed spec fn view(&self) -> Seq<IRV> {
        body_view(self.ir@)
    }
}

pub type CompileIR = Compile<IRBuilder>;

/// A compile outcome agrees with the code or error `spec` gives.
pub open spec fn ir_matches(r: CompileIR, spec: Result<Seq<IRV>, CompileErrorV>) -> bool {
    match spec {
        Ok(code) => r matches Ok(b) && b@ == code,
        Err(e) => r matches Err(e2) && error_view(e2) == e,
    }
}

impl IRBuilder {
    pub fn new() -> (b: Self)
        ensures
            b@ == Seq::<IRV>::empty(),
    {
        let b = IRBuilder { ir: Vec::new() };
        proof {
            lemma_body_view(b.ir@);
        }
        b
    }

    pub fn from(ir: Vec<IR>) -> (b: Self)
        ensures
            b@ == body_view(ir@),
    {
        IRBuilder { ir }
    }

    pub fn push(&mut self, item: IR)
        ensures
            final(self)@ == old(self)@.push(ir_view(item)),
    {
        proof {
            lemma_body_view_push(self.ir@, item);
        }
        self.ir.push(item);
    }

    pub fn append(&mut self, other: IRBuilder)
        ensures
            final(self)@ == old(self)@ + other@,
    {
        let mut other_ir = other.to_vec();
        proof {
            lemma_body_view_concat(self.ir@, other_ir@);
        }
        self.ir.append(&mut other_ir);
    }

    pub fn to_vec(self) -> (v: Vec<IR>)
        ensures
            body_view(v@) == self@,
    {
        self.ir
    }
}

impl BindingRecord {
    /// The instruction that pushes this binding's value where an object captures it.
    fn ival(self) -> (ir: IR)
        ensures
            ir_view(ir) == record_ival(self),
    {
        match self {
            Self::Local(addr) => IR::Local(addr),
            Self::Var(addr) => IR::Local(addr),
            Self::Do(addr) => IR::Local(addr),
            Self::IVal(index) => IR::IVal(index),
            Self::VarIVal(index) => IR::IVal(index),
            Self::DoIVal(index) => IR::IVal(index),
        }
    }

    fn identifier(self, key: String) -> (r: CompileIR)
        ensures
            ir_matches(r, record_identifier(self, key@)),
    {
        let ir = match self {
            Self::Local(address) => vec![IR::Local(address)],
            Self::Var(address) => vec![IR::Local(address), IR::Deref],
            Self::IVal(index) => vec![IR::IVal(index)],
            Self::VarIVal(index) => vec![IR::IVal(index), IR::Deref],
            Self::Do(_) => return Err(CompileError::InvalidDoReference(key)),
            Self::DoIVal(_) => return Err(CompileError::InvalidDoReference(key)),
        };
        proof {
            lemma_body_view(ir@);
            assert(body_view(ir@) =~= record_identifier(self, key@)->Ok_0);
        }
        Ok(IRBuilder::from(ir))
    }

    fn passed(self, key: String) -> (r: CompileIR)
        ensures
            ir_matches(r, record_passed(self, key@)),
    {
        let ir = match self {
            Self::Do(address) => vec![IR::Local(address)],
            Self::DoIVal(index) => vec![IR::IVal(index)],
            _ => return self.identifier(key),
        };
        proof {
            lemma_body_view(ir@);
            assert(body_view(ir@) =~= record_passed(self, key@)->Ok_0);
        }
        Ok(IRBuilder::from(ir))
    }

    fn var_arg(self, key: String) -> (r: CompileIR)
        ensures
            ir_matches(r, record_var_arg(self, key@)),
    {
        let ir = match self {
            Self::Var(address) => IR::Local(address),
            Self::VarIVal(index) => IR::IVal(index),
            _ => return Err(CompileError::InvalidVarArg(key)),
        };
        let v = vec![ir];
        proof {
            lemma_body_view(v@);
            assert(body_view(v@) =~= record_var_arg(self, key@)->Ok_0);
        }
        Ok(IRBuilder::from(v))
    }

    fn set(self, key: String) -> (r: CompileIR)
        ensures
            ir_matches(r, record_set(self, key@)),
    {
        let ir = match self {
            Self::Var(address) => vec![IR::Local(address), IR::SetVar],
            Self::VarIVal(index) => vec![IR::IVal(index), IR::SetVar],
            _ => return Err(CompileError::InvalidSet(key)),
        };
        proof {
            lemma_body_view(ir@);
            assert(body_view(ir@) =~= record_set(self, key@)->Ok_0);
        }
        Ok(IRBuilder::from(ir))
    }
}

/// The code that builds a module's exports object from its export entries, in order:
/// each exported slot is pushed, and the object's class has a getter per name returning
/// its instance value.
pub open spec fn exports_code(es: Seq<(String, Address)>) -> Seq<IRV> {
    Seq::new(es.len(), |i: int| IRV::Local(es[i].1)).push(
        IRV::Object(crate::ast::classv_fold(crate::ir::classv_empty(), exports_handlers(es)), es.len() as usize),
    )
}

/// The getters of an exports object.
pub open spec fn exports_handlers(es: Seq<(String, Address)>) -> Seq<(Seq<char>, crate::ir::HandlerV)> {
    Seq::new(es.len(), |i: int| (es[i].0@, crate::ir::HandlerV { params: Seq::empty(), body: seq![IRV::IVal(i as usize)] }))
}

/// The names a module exports and the slots holding their values.
struct Exports {
    exports: Assoc<Address>,
}

impl Exports {
    fn new() -> (e: Self)
        ensures
            e.exports@ == Map::<Seq<char>, Address>::empty(),
    {
        Exports { exports: Assoc::new() }
    }

    fn add(&mut self, name: String, address: Address) -> (r: Compile<()>)
        ensures
            if old(self).exports@.contains_key(name@) {
                r matches Err(e) && error_view(e) == CompileErrorV::DuplicateExport(name@)
                    && final(self).exports@ == old(self).exports@
            } else {
                r is Ok && final(self).exports@ == old(self).exports@.insert(name@, address)
            },
    {
        if self.exports.contains_key(&name) {
            return Err(CompileError::DuplicateExport(name));
        }
        let _ = self.exports.insert(name, address);
        Ok(())
    }

    /// The code that builds the exports object (the order of the entries is the order in
    /// which they were exported).
    fn compile(self) -> (r: IRBuilder)
        ensures
            exists|es: Seq<(String, Address)>| entries_map(es) == self.exports@ && keys_distinct(es)
                && #[trigger] exports_code(es) == r@,
    {
        let ghost m = self.exports@;
        let es = self.exports.to_vec();
        let mut ir = IRBuilder::new();
        let mut class = crate::ir::Class::new();
        let mut i: usize = 0;
        while i < es.len()
            invariant
                i <= es@.len(),
                ir@ == Seq::new(i as nat, |k: int| IRV::Local(es@[k].1)),
                crate::ir::class_view(class) == crate::ast::classv_fold(
                    crate::ir::classv_empty(),
                    exports_handlers(es@).take(i as int),
                ),
            decreases es@.len() - i,
        {
            ir.push(IR::Local(es[i].1));
            let body = vec![IR::IVal(i)];
            let none: Vec<crate::ir::Param> = Vec::new();
            proof {
                lemma_body_view(body@);
                assert(body_view(body@) =~= seq![IRV::IVal(i)]);
                assert(none@ =~= Seq::<crate::ir::Param>::empty());
                crate::ast::lemma_fold_push(
                    crate::ir::classv_empty(),
                    exports_handlers(es@).take(i as int),
                    exports_handlers(es@)[i as int],
                );
                assert(exports_handlers(es@).take(i + 1) =~= exports_handlers(es@).take(i as int).push(
                    exports_handlers(es@)[i as int],
                ));
            }
            class.add_handler(crate::text::string_from_str(es[i].0.as_str()), none, body);
            proof {
                assert(ir@ =~= Seq::new((i + 1) as nat, |k: int| IRV::Local(es@[k].1)));
            }
            i = i + 1;
        }
        let n = es.len();
        ir.push(IR::Object(class.rc(), n));
        proof {
            assert(exports_handlers(es@).take(n as int) =~= exports_handlers(es@));
            assert(ir@ =~= exports_code(es@));
        }
        ir
    }

}

/// The names bound in one handler (or the module's top level) and the next free slot.
struct Locals {
    locals: Assoc<BindingRecord>,
    next_index: usize,
}

impl Locals {
    fn new() -> (l: Self)
        ensures
            l.locals@ == Map::<Seq<char>, BindingRecord>::empty(),
            l.next_index == 0,
    {
        Locals { locals: Assoc::new(), next_index: 0 }
    }

    fn get(&self, key: &String) -> (r: Option<BindingRecord>)
        ensures
            r == (if self.locals@.contains_key(key@) {
                Some(self.locals@[key@])
            } else {
                None::<BindingRecord>
            }),
    {
        self.locals.get(key)
    }

    fn add_anon(&mut self) -> (address: usize)
        requires
            old(self).next_index < usize::MAX,
        ensures
            address == old(self).next_index,
            final(self).locals@ == old(self).locals@,
            final(self).next_index == old(self).next_index + 1,
    {
        let address = self.next_index;
        self.next_index += 1;
        address
    }

    fn add_let(&mut self, key: String) -> (address: usize)
        requires
            old(self).next_index < usize::MAX,
        ensures
            address == old(self).next_index,
            final(self).locals@ == old(self).locals@.insert(key@, BindingRecord::Local(old(self).next_index)),
            final(self).next_index == old(self).next_index + 1,
    {
        let address = self.next_index;
        let _ = self.locals.insert(key, BindingRecord::Local(self.next_index));
        self.next_index += 1;
        address
    }

    fn add_var_param(&mut self, key: String)
        requires
            old(self).next_index < usize::MAX,
        ensures
            final(self).locals@ == old(self).locals@.insert(key@, BindingRecord::Var(old(self).next_index)),
            final(self).next_index == old(self).next_index + 1,
    {
        let _ = self.locals.insert(key, BindingRecord::Var(self.next_index));
        self.next_index += 1;
    }

    fn add_do_param(&mut self, key: String)
        requires
            old(self).next_index < usize::MAX,
        ensures
            final(self).locals@ == old(self).locals@.insert(key@, BindingRecord::Do(old(self).next_index)),
            final(self).next_index == old(self).next_index + 1,
    {
        let _ = self.locals.insert(key, BindingRecord::Do(self.next_index));
        self.next_index += 1;
    }

    /// Binds a `var` name: two slots, the cell (returned) and the value it refers to,
    /// which the name is bound to.
    fn add_var(&mut self, key: String) -> (var_index: usize)
        requires
            old(self).next_index + 2 <= usize::MAX,
        ensures
            var_index == old(self).next_index,
            final(self).locals@ == old(self).locals@.insert(key@, BindingRecord::Var((old(self).next_index + 1) as usize)),
            final(self).next_index == old(self).next_index + 2,
    {
        let var_index = self.next_index;
        let _ = self.locals.insert(key, BindingRecord::Var(var_index + 1));
        self.next_index += 2;
        var_index
    }
}

/// The outer bindings a handler captures, in capture order, and how it sees them.
pub struct IVals {
    map: Assoc<BindingRecord>,
    ivals: Vec<BindingRecord>,
}

impl IVals {
    /// How the handler sees each captured name.
    pub closed spec fn captured(&self) -> Map<Seq<char>, BindingRecord> {
        self.map@
    }

    /// The captured bindings, in capture order.
    pub closed spec fn values(&self) -> Seq<BindingRecord> {
        self.ivals@
    }

    /// No captures.
    pub fn new() -> (v: Self)
        ensures
            v.captured() == Map::<Seq<char>, BindingRecord>::empty(),
            v.values() == Seq::<BindingRecord>::empty(),
    {
        IVals { map: Assoc::new(), ivals: Vec::new() }
    }

    fn add(&mut self, key: String, value: BindingRecord) -> (r: Compile<BindingRecord>)
        requires
            !old(self).map@.contains_key(key@),
        ensures
            final(self).ivals@ == old(self).ivals@.push(value),
            match capture_in_handler(value, old(self).ivals@.len() as usize, key@) {
                Ok(rec) => r == Ok::<BindingRecord, CompileError>(rec) && final(self).map@
                    == old(self).map@.insert(key@, rec),
                Err(e) => r matches Err(e2) && error_view(e2) == e && final(self).map@ == old(self).map@,
            },
    {
        let next_index = self.ivals.len();
        self.ivals.push(value);
        let ival = value.as_handler_ival(next_index, &key)?;
        let _ = self.map.insert(key, ival);
        Ok(ival)
    }

    fn add_do(&mut self, key: String, value: BindingRecord) -> (r: Compile<BindingRecord>)
        requires
            !old(self).map@.contains_key(key@),
        ensures
            final(self).ivals@ == old(self).ivals@.push(value),
            r == Ok::<BindingRecord, CompileError>(capture_in_do(value, old(self).ivals@.len() as usize)),
            final(self).map@ == old(self).map@.insert(
                key@,
                capture_in_do(value, old(self).ivals@.len() as usize),
            ),
    {
        let next_index = self.ivals.len();
        self.ivals.push(value);
        let ival = value.as_do_handler_ival(next_index);
        let _ = self.map.insert(key, ival);
        Ok(ival)
    }

    fn get(&self, key: &String) -> (r: Option<BindingRecord>)
        ensures
            r == (if self.map@.contains_key(key@) {
                Some(self.map@[key@])
            } else {
                None::<BindingRecord>
            }),
    {
        self.map.get(key)
    }

    /// The number of captured values.
    pub fn count(&self) -> (n: usize)
        ensures
            n == self.values().len(),
    {
        self.ivals.len()
    }

    /// The code that pushes the captured values, in capture order, when the object is
    /// built.
    pub fn compile(self) -> (r: CompileIR)
        ensures
            r matches Ok(b) && b@ == self.values().map_values(|v: BindingRecord| record_ival(v)),
    {
        let mut out = IRBuilder::new();
        let mut i: usize = 0;
        while i < self.ivals.len()
            invariant
                i <= self.ivals@.len(),
                out@ == self.ivals@.take(i as int).map_values(|v: BindingRecord| record_ival(v)),
            decreases self.ivals@.len() - i,
        {
            let ghost before = out@;
            out.push(self.ivals[i].ival());
            proof {
                assert(self.ivals@.take(i + 1) =~= self.ivals@.take(i as int).push(self.ivals@[i as int]));
                assert(out@ =~= self.ivals@.take(i + 1).map_values(|v: BindingRecord| record_ival(v)));
            }
            i = i + 1;
        }
        proof {
            assert(self.ivals@.take(self.ivals@.len() as int) =~= self.ivals@);
        }
        Ok(out)
    }
}

/// The kind of a compiler frame.
pub enum FrameKind {
    Root,
    Handler,
    Do,
}

/// The view of a compiler frame: its kind, its local names and next free slot, its
/// captured names and bindings (handler frames), and its exports (the root frame).
pub struct FrameV {
    pub kind: FrameKind,
    pub locals: Map<Seq<char>, BindingRecord>,
    pub next_index: usize,
    pub ival_map: Map<Seq<char>, BindingRecord>,
    pub ivals: Seq<BindingRecord>,
    pub exports: Map<Seq<char>, Address>,
}

enum CompilerFrame {
    Root(Locals, Exports),
    Handler(Locals, IVals),
    Do(Locals, IVals),
}

spec fn frame_view(f: CompilerFrame) -> FrameV {
    match f {
        CompilerFrame::Root(ls, ex) => FrameV {
            kind: FrameKind::Root,
            locals: ls.locals@,
            next_index: ls.next_index,
            ival_map: Map::empty(),
            ivals: Seq::empty(),
            exports: ex.exports@,
        },
        CompilerFrame::Handler(ls, iv) => FrameV {
            kind: FrameKind::Handler,
            locals: ls.locals@,
            next_index: ls.next_index,
            ival_map: iv.map@,
            ivals: iv.ivals@,
            exports: Map::empty(),
        },
        CompilerFrame::Do(ls, iv) => FrameV {
            kind: FrameKind::Do,
            locals: ls.locals@,
            next_index: ls.next_index,
            ival_map: iv.map@,
            ivals: iv.ivals@,
            exports: Map::empty(),
        },
    }
}

/// A fresh frame for a handler body that starts from the given captures.
pub open spec fn handler_frame(is_do: bool, ival_map: Map<Seq<char>, BindingRecord>, ivals: Seq<BindingRecord>) -> FrameV {
    FrameV {
        kind: if is_do {
            FrameKind::Do
        } else {
            FrameKind::Handler
        },
        locals: Map::empty(),
        next_index: 0,
        ival_map,
        ivals,
        exports: Map::empty(),
    }
}

/// A frame with one more slot taken, bound to `key` as `rec` when there is a key.
pub open spec fn frame_bind(f: FrameV, key: Option<Seq<char>>, rec: BindingRecord) -> FrameV {
    FrameV {
        locals: match key {
            Some(k) => f.locals.insert(k, rec),
            None => f.locals,
        },
        next_index: (f.next_index + 1) as usize,
        ..f
    }
}

/// A frame with a `var` name bound: two slots, the cell and the value it refers to, the
/// name bound to the second.
pub open spec fn frame_add_var(f: FrameV, key: Seq<char>) -> FrameV {
    FrameV {
        locals: f.locals.insert(key, BindingRecord::Var((f.next_index + 1) as usize)),
        next_index: (f.next_index + 2) as usize,
        ..f
    }
}

/// A handler frame capturing `key` (bound outside as `value`): the frame afterwards and
/// how the handler sees the capture.
pub open spec fn frame_capture(f: FrameV, key: Seq<char>, value: BindingRecord) -> Result<(FrameV, BindingRecord), CompileErrorV> {
    let idx = f.ivals.len() as usize;
    match f.kind {
        FrameKind::Do => {
            let rec = capture_in_do(value, idx);
            Ok((FrameV { ival_map: f.ival_map.insert(key, rec), ivals: f.ivals.push(value), ..f }, rec))
        },
        _ => match capture_in_handler(value, idx, key) {
            Ok(rec) => Ok((FrameV { ival_map: f.ival_map.insert(key, rec), ivals: f.ivals.push(value), ..f }, rec)),
            Err(e) => Err(e),
        },
    }
}

/// Resolving `key` from frame `depth` outwards: a local or an existing capture of that
/// frame is used as is; otherwise the name is resolved in the enclosing frame and captured
/// by every frame between.
pub open spec fn lookup_at(st: Seq<FrameV>, key: Seq<char>, depth: nat) -> Result<(Seq<FrameV>, BindingRecord), CompileErrorV>
    decreases depth,
{
    let f = st[depth as int];
    if f.locals.contains_key(key) {
        Ok((st, f.locals[key]))
    } else if !(f.kind is Root) && f.ival_map.contains_key(key) {
        Ok((st, f.ival_map[key]))
    } else if depth == 0 {
        Err(CompileErrorV::UnknownIdentifier(key))
    } else {
        match lookup_at(st, key, (depth - 1) as nat) {
            Err(e) => Err(e),
            Ok((st2, next)) => match frame_capture(st2[depth as int], key, next) {
                Err(e) => Err(e),
                Ok((f2, rec)) => Ok((st2.update(depth as int, f2), rec)),
            },
        }
    }
}

/// Resolving `key` from the innermost frame, then turning the binding into code with `f`.
pub open spec fn lookup_then(
    st: Seq<FrameV>,
    key: Seq<char>,
    f: spec_fn(BindingRecord) -> Result<Seq<IRV>, CompileErrorV>,
) -> Result<Seq<IRV>, CompileErrorV> {
    match lookup_at(st, key, (st.len() - 1) as nat) {
        Ok((_, rec)) => f(rec),
        Err(e) => Err(e),
    }
}

pub proof fn lemma_lookup_at_frames(st: Seq<FrameV>, key: Seq<char>, depth: nat)
    requires
        depth < st.len(),
    ensures
        lookup_at(st, key, depth) matches Ok((st2, _)) ==> {
            &&& st2.len() == st.len()
            &&& forall|i: int| depth < i < st.len() ==> st2[i] == st[i]
            &&& forall|i: int| 0 <= i < st.len() ==> st2[i].kind == st[i].kind
        },
    decreases depth,
{
    if depth > 0 {
        lemma_lookup_at_frames(st, key, (depth - 1) as nat);
    }
}

/// A name bound in the innermost frame resolves there, to its record, changing nothing.
proof fn lemma_lookup_top(st: Seq<FrameV>, key: Seq<char>)
    requires
        st.len() >= 1,
        st.last().locals.contains_key(key),
    ensures
        lookup_at(st, key, (st.len() - 1) as nat) == Ok::<(Seq<FrameV>, BindingRecord), CompileErrorV>(
            (st, st.last().locals[key]),
        ),
{
}

/// Reading a name just bound in the innermost frame: a `let` (or plain parameter) at slot
/// `a` reads as `Local(a)`; a `var` parameter at `a` reads through its cell, is set and
/// passed as a `var` argument at `a`; a `do` parameter at `a` cannot be read as a value but
/// is passed as `Local(a)`; a `var` declared at `a` holds its value at `a + 1`. Each read
/// leaves the frames as they are.
pub proof fn law_read_after_bind(st: Seq<FrameV>, key: Seq<char>)
    requires
        frames_ok(st),
    ensures
        ({
            let a = st.last().next_index;
            let s = replace_top(st, frame_bind(st.last(), Some(key), BindingRecord::Local(a)));
            &&& lookup_at(s, key, (s.len() - 1) as nat) == Ok::<(Seq<FrameV>, BindingRecord), CompileErrorV>((s, BindingRecord::Local(a)))
            &&& record_identifier(BindingRecord::Local(a), key) == Ok::<Seq<IRV>, CompileErrorV>(seq![IRV::Local(a)])
        }),
        ({
            let a = st.last().next_index;
            let s = replace_top(st, frame_bind(st.last(), Some(key), BindingRecord::Var(a)));
            &&& lookup_at(s, key, (s.len() - 1) as nat) == Ok::<(Seq<FrameV>, BindingRecord), CompileErrorV>((s, BindingRecord::Var(a)))
            &&& record_identifier(BindingRecord::Var(a), key) == Ok::<Seq<IRV>, CompileErrorV>(seq![IRV::Local(a), IRV::Deref])
            &&& record_set(BindingRecord::Var(a), key) == Ok::<Seq<IRV>, CompileErrorV>(seq![IRV::Local(a), IRV::SetVar])
            &&& record_var_arg(BindingRecord::Var(a), key) == Ok::<Seq<IRV>, CompileErrorV>(seq![IRV::Local(a)])
        }),
        ({
            let a = st.last().next_index;
            let s = replace_top(st, frame_bind(st.last(), Some(key), BindingRecord::Do(a)));
            &&& lookup_at(s, key, (s.len() - 1) as nat) == Ok::<(Seq<FrameV>, BindingRecord), CompileErrorV>((s, BindingRecord::Do(a)))
            &&& record_identifier(BindingRecord::Do(a), key) == Err::<Seq<IRV>, CompileErrorV>(CompileErrorV::InvalidDoReference(key))
            &&& record_passed(BindingRecord::Do(a), key) == Ok::<Seq<IRV>, CompileErrorV>(seq![IRV::Local(a)])
        }),
        ({
            let v = (st.last().next_index + 1) as usize;
            let s = replace_top(st, frame_add_var(st.last(), key));
            &&& lookup_at(s, key, (s.len() - 1) as nat) == Ok::<(Seq<FrameV>, BindingRecord), CompileErrorV>((s, BindingRecord::Var(v)))
            &&& record_identifier(BindingRecord::Var(v), key) == Ok::<Seq<IRV>, CompileErrorV>(seq![IRV::Local(v), IRV::Deref])
        }),
{
    let a = st.last().next_index;
    let s1 = replace_top(st, frame_bind(st.last(), Some(key), BindingRecord::Local(a)));
    lemma_lookup_top(s1, key);
    let s2 = replace_top(st, frame_bind(st.last(), Some(key), BindingRecord::Var(a)));
    lemma_lookup_top(s2, key);
    let s3 = replace_top(st, frame_bind(st.last(), Some(key), BindingRecord::Do(a)));
    lemma_lookup_top(s3, key);
    let s4 = replace_top(st, frame_add_var(st.last(), key));
    lemma_lookup_top(s4, key);
}

/// Lookups at depth `d` in two frame stacks that agree up to `d` find the same record (or
/// fail the same way), and leave stacks that still agree up to `d` and are unchanged above.
proof fn lemma_lookup_prefix(s1: Seq<FrameV>, s2: Seq<FrameV>, key: Seq<char>, d: nat)
    requires
        d < s1.len(),
        s1.len() == s2.len(),
        forall|i: int| 0 <= i <= d ==> s1[i] == s2[i],
    ensures
        match (lookup_at(s1, key, d), lookup_at(s2, key, d)) {
            (Ok((t1, r1)), Ok((t2, r2))) => r1 == r2 && t1.len() == s1.len() && t2.len() == s2.len()
                && (forall|i: int| 0 <= i <= d ==> t1[i] == t2[i])
                && (forall|i: int| d < i < s1.len() ==> t1[i] == s1[i] && t2[i] == s2[i]),
            (Err(e1), Err(e2)) => e1 == e2,
            _ => false,
        },
    decreases d,
{
    if d > 0 {
        lemma_lookup_prefix(s1, s2, key, (d - 1) as nat);
        lemma_lookup_at_frames(s1, key, (d - 1) as nat);
        lemma_lookup_at_frames(s2, key, (d - 1) as nat);
    }
}

/// Taking an anonymous slot binds no name: every name resolves as before, to the same
/// binding or the same error.
pub proof fn law_anon_binds_nothing(st: Seq<FrameV>, key: Seq<char>)
    requires
        frames_ok(st),
    ensures
        ({
            let s = replace_top(st, frame_bind(st.last(), None, BindingRecord::Local(st.last().next_index)));
            match (lookup_at(s, key, (s.len() - 1) as nat), lookup_at(st, key, (st.len() - 1) as nat)) {
                (Ok((_, r1)), Ok((_, r2))) => r1 == r2,
                (Err(e1), Err(e2)) => e1 == e2,
                _ => false,
            }
        }),
{
    let s = replace_top(st, frame_bind(st.last(), None, BindingRecord::Local(st.last().next_index)));
    let d = (st.len() - 1) as nat;
    if d > 0 {
        lemma_lookup_prefix(s, st, key, (d - 1) as nat);
        lemma_lookup_at_frames(s, key, (d - 1) as nat);
        lemma_lookup_at_frames(st, key, (d - 1) as nat);
    }
}

/// Only a do-block captures a var: resolving from a new innermost frame a name bound
/// outside as a var gives, in a do-block frame, a var held as its next instance value
/// (set through `IVal`), and in an object handler frame an `InvalidVarReference` error.
pub proof fn law_only_do_captures_var(st: Seq<FrameV>, key: Seq<char>, a: Address)
    requires
        frames_ok(st),
        st.len() >= 2,
        !st.last().locals.contains_key(key),
        !st.last().ival_map.contains_key(key),
        lookup_at(st, key, (st.len() - 2) as nat) matches Ok((_, r)) && r == BindingRecord::Var(a),
    ensures
        st.last().kind is Do ==> (lookup_at(st, key, (st.len() - 1) as nat) matches Ok((_, rec)) && rec
            == BindingRecord::VarIVal(st.last().ivals.len() as usize) && record_set(rec, key)
            == Ok::<Seq<IRV>, CompileErrorV>(seq![IRV::IVal(st.last().ivals.len() as usize), IRV::SetVar])),
        st.last().kind is Handler ==> lookup_at(st, key, (st.len() - 1) as nat) == Err::<
            (Seq<FrameV>, BindingRecord),
            CompileErrorV,
        >(CompileErrorV::InvalidVarReference(key)),
{
    lemma_lookup_at_frames(st, key, (st.len() - 2) as nat);
}

/// The depth, at or below `d`, of the innermost frame that binds `key` itself (as a local,
/// or as a capture of a handler frame), if any.
pub open spec fn found_at(st: Seq<FrameV>, key: Seq<char>, d: nat) -> Option<nat>
    decreases d,
{
    let f = st[d as int];
    if f.locals.contains_key(key) || (!(f.kind is Root) && f.ival_map.contains_key(key)) {
        Some(d)
    } else if d == 0 {
        None
    } else {
        found_at(st, key, (d - 1) as nat)
    }
}

/// Resolving `key` from depth `d`: a name bound nowhere at or below `d` is unknown; a
/// name found at depth `k` leaves the frames at and below `k` and above `d` as they are,
/// and every frame between gains exactly one capture, of `key`, with its locals and kind
/// unchanged; the binding returned is how the frame at `d` sees the name.
pub proof fn law_lookup_captures(st: Seq<FrameV>, key: Seq<char>, d: nat)
    requires
        d < st.len(),
    ensures
        found_at(st, key, d) is None ==> lookup_at(st, key, d) == Err::<(Seq<FrameV>, BindingRecord), CompileErrorV>(
            CompileErrorV::UnknownIdentifier(key),
        ),
        found_at(st, key, d) matches Some(k) ==> k <= d && match lookup_at(st, key, d) {
            Ok((st2, r)) => {
                &&& st2.len() == st.len()
                &&& forall|i: int| 0 <= i <= k ==> st2[i] == st[i]
                &&& forall|i: int| d < i < st.len() ==> st2[i] == st[i]
                &&& forall|i: int| k < i <= d ==> {
                    &&& (#[trigger] st2[i]).ivals.len() == st[i].ivals.len() + 1
                    &&& st2[i].ival_map.contains_key(key)
                    &&& st2[i].locals == st[i].locals
                    &&& st2[i].kind == st[i].kind
                }
                &&& (k < d ==> st2[d as int].ival_map[key] == r)
            },
            Err(_) => true,
        },
    decreases d,
{
    let f = st[d as int];
    if f.locals.contains_key(key) || (!(f.kind is Root) && f.ival_map.contains_key(key)) {
    } else if d > 0 {
        law_lookup_captures(st, key, (d - 1) as nat);
        lemma_lookup_at_frames(st, key, (d - 1) as nat);
    }
}

/// A name, once resolved, resolves again to the same binding and leaves the frames as
/// they are: the captures made by the first resolution are found by the second.
pub proof fn law_lookup_again(st: Seq<FrameV>, key: Seq<char>, depth: nat)
    requires
        frames_ok(st),
        depth < st.len(),
        lookup_at(st, key, depth) is Ok,
    ensures
        lookup_at(lookup_at(st, key, depth)->Ok_0.0, key, depth) == lookup_at(st, key, depth),
{
    let f = st[depth as int];
    if !f.locals.contains_key(key) && !(!(f.kind is Root) && f.ival_map.contains_key(key)) && depth > 0 {
        lemma_lookup_at_frames(st, key, (depth - 1) as nat);
        let st3 = lookup_at(st, key, (depth - 1) as nat)->Ok_0.0;
        assert(st3[depth as int] == f);
        assert(!(f.kind is Root));
    }
}

/// Frames are well formed: the outermost is the root, the others are handler frames.
pub open spec fn frames_ok(st: Seq<FrameV>) -> bool {
    &&& st.len() >= 1
    &&& st[0].kind is Root
    &&& forall|i: int| 1 <= i < st.len() ==> !(#[trigger] st[i].kind is Root)
}

/// The frames with the innermost one replaced.
pub open spec fn replace_top(st: Seq<FrameV>, f: FrameV) -> Seq<FrameV> {
    st.update(st.len() - 1, f)
}

impl CompilerFrame {
    fn root() -> (f: Self)
        ensures
            frame_view(f) == (FrameV {
                kind: FrameKind::Root,
                locals: Map::empty(),
                next_index: 0,
                ival_map: Map::empty(),
                ivals: Seq::empty(),
                exports: Map::empty(),
            }),
    {
        Self::Root(Locals::new(), Exports::new())
    }

    fn handler(ivals: IVals) -> (f: Self)
        ensures
            frame_view(f) == handler_frame(false, ivals.map@, ivals.ivals@),
    {
        Self::Handler(Locals::new(), ivals)
    }

    fn do_handler(ivals: IVals) -> (f: Self)
        ensures
            frame_view(f) == handler_frame(true, ivals.map@, ivals.ivals@),
    {
        Self::Do(Locals::new(), ivals)
    }

    fn get_local(&self, key: &String) -> (r: Option<BindingRecord>)
        ensures
            r == (if frame_view(*self).locals.contains_key(key@) {
                Some(frame_view(*self).locals[key@])
            } else {
                None::<BindingRecord>
            }),
    {
        match self {
            Self::Root(ls, _) => ls.get(key),
            Self::Handler(ls, _) => ls.get(key),
            Self::Do(ls, _) => ls.get(key),
        }
    }

    fn ivals(self) -> (iv: IVals)
        requires
            !(frame_view(self).kind is Root),
        ensures
            iv.map@ == frame_view(self).ival_map,
            iv.ivals@ == frame_view(self).ivals,
    {
        match self {
            Self::Root(_, _) => vstd::pervasive::unreached(),
            Self::Handler(_, ivals) => ivals,
            Self::Do(_, ivals) => ivals,
        }
    }

    fn get_ival(&self, key: &String) -> (r: Option<BindingRecord>)
        ensures
            r == (if !(frame_view(*self).kind is Root) && frame_view(*self).ival_map.contains_key(key@) {
                Some(frame_view(*self).ival_map[key@])
            } else {
                None::<BindingRecord>
            }),
    {
        match self {
            Self::Root(_, _) => None,
            Self::Handler(_, ivals) => ivals.get(key),
            Self::Do(_, ivals) => ivals.get(key),
        }
    }

    fn add_ival(self, key: String, value: BindingRecord) -> (r: (Self, Compile<BindingRecord>))
        requires
            !(frame_view(self).kind is Root),
            !frame_view(self).ival_map.contains_key(key@),
        ensures
            frame_view(r.0).kind == frame_view(self).kind,
            match frame_capture(frame_view(self), key@, value) {
                Ok((f2, rec)) => r.1 == Ok::<BindingRecord, CompileError>(rec) && frame_view(r.0) == f2,
                Err(e) => r.1 matches Err(e2) && error_view(e2) == e,
            },
    {
        match self {
            Self::Root(_, _) => vstd::pervasive::unreached(),
            Self::Handler(ls, mut ivals) => {
                let r = ivals.add(key, value);
                (Self::Handler(ls, ivals), r)
            },
            Self::Do(ls, mut ivals) => {
                let r = ivals.add_do(key, value);
                (Self::Do(ls, ivals), r)
            },
        }
    }

    /// Takes the next slot, binding `key` to it as a plain local when there is a key.
    fn bind_local(self, key: Option<String>) -> (r: (Self, usize))
        requires
            frame_view(self).next_index < usize::MAX,
        ensures
            r.1 == frame_view(self).next_index,
            frame_view(r.0) == frame_bind(
                frame_view(self),
                match key {
                    Some(k) => Some(k@),
                    None => None,
                },
                BindingRecord::Local(frame_view(self).next_index),
            ),
    {
        match self {
            Self::Root(mut ls, ex) => {
                let a = match key {
                    Some(k) => ls.add_let(k),
                    None => ls.add_anon(),
                };
                (Self::Root(ls, ex), a)
            },
            Self::Handler(mut ls, iv) => {
                let a = match key {
                    Some(k) => ls.add_let(k),
                    None => ls.add_anon(),
                };
                (Self::Handler(ls, iv), a)
            },
            Self::Do(mut ls, iv) => {
                let a = match key {
                    Some(k) => ls.add_let(k),
                    None => ls.add_anon(),
                };
                (Self::Do(ls, iv), a)
            },
        }
    }

    fn add_var(self, key: String) -> (r: (Self, usize))
        requires
            frame_view(self).next_index + 2 <= usize::MAX,
        ensures
            r.1 == frame_view(self).next_index,
            frame_view(r.0) == frame_add_var(frame_view(self), key@),
    {
        match self {
            Self::Root(mut ls, ex) => {
                let a = ls.add_var(key);
                (Self::Root(ls, ex), a)
            },
            Self::Handler(mut ls, iv) => {
                let a = ls.add_var(key);
                (Self::Handler(ls, iv), a)
            },
            Self::Do(mut ls, iv) => {
                let a = ls.add_var(key);
                (Self::Do(ls, iv), a)
            },
        }
    }

    fn add_var_param(self, key: String) -> (f: Self)
        requires
            frame_view(self).next_index < usize::MAX,
        ensures
            frame_view(f) == frame_bind(
                frame_view(self),
                Some(key@),
                BindingRecord::Var(frame_view(self).next_index),
            ),
    {
        match self {
            Self::Root(mut ls, ex) => {
                ls.add_var_param(key);
                Self::Root(ls, ex)
            },
            Self::Handler(mut ls, iv) => {
                ls.add_var_param(key);
                Self::Handler(ls, iv)
            },
            Self::Do(mut ls, iv) => {
                ls.add_var_param(key);
                Self::Do(ls, iv)
            },
        }
    }

    fn add_do_param(self, key: String) -> (f: Self)
        requires
            frame_view(self).next_index < usize::MAX,
        ensures
            frame_view(f) == frame_bind(
                frame_view(self),
                Some(key@),
                BindingRecord::Do(frame_view(self).next_index),
            ),
    {
        match self {
            Self::Root(mut ls, ex) => {
                ls.add_do_param(key);
                Self::Root(ls, ex)
            },
            Self::Handler(mut ls, iv) => {
                ls.add_do_param(key);
                Self::Handler(ls, iv)
            },
            Self::Do(mut ls, iv) => {
                ls.add_do_param(key);
                Self::Do(ls, iv)
            },
        }
    }

    /// Exports `name` from the module's top level; handler frames cannot export.
    fn add_export(self, name: String, address: Address) -> (r: (Self, Compile<()>))
        ensures
            frame_view(r.0).kind == frame_view(self).kind,
            frame_view(r.0).locals == frame_view(self).locals,
            frame_view(r.0).next_index == frame_view(self).next_index,
            frame_view(r.0).ival_map == frame_view(self).ival_map,
            frame_view(r.0).ivals == frame_view(self).ivals,
            match frame_view(self).kind {
                FrameKind::Root => if frame_view(self).exports.contains_key(name@) {
                    r.1 matches Err(e) && error_view(e) == CompileErrorV::DuplicateExport(name@)
                        && frame_view(r.0).exports == frame_view(self).exports
                } else {
                    r.1 is Ok && frame_view(r.0).exports == frame_view(self).exports.insert(name@, address)
                },
                _ => r.1 matches Err(e) && error_view(e) == CompileErrorV::InvalidExport(name@)
                    && frame_view(r.0).exports == frame_view(self).exports,
            },
    {
        match self {
            Self::Root(ls, mut exports) => {
                let r = exports.add(name, address);
                (Self::Root(ls, exports), r)
            },
            Self::Handler(ls, iv) => (Self::Handler(ls, iv), Err(CompileError::InvalidExport(name))),
            Self::Do(ls, iv) => (Self::Do(ls, iv), Err(CompileError::InvalidExport(name))),
        }
    }
}

/// The scope bookkeeping of the module compiler: a stack of frames, the module's top level
/// at the bottom.
pub struct Compiler {
    frames: Vec<CompilerFrame>,
}

impl Compiler {
    /// The frames, outermost first.
    pub closed spec fn frames_view(&self) -> Seq<FrameV> {
        self.frames@.map_values(|f: CompilerFrame| frame_view(f))
    }

    pub open spec fn wf(&self) -> bool {
        frames_ok(self.frames_view())
    }

    /// The innermost frame.
    pub open spec fn top(&self) -> FrameV {
        self.frames_view().last()
    }

    proof fn lemma_frames_view(&self)
        ensures
            self.frames_view().len() == self.frames@.len(),
            forall|i: int| 0 <= i < self.frames@.len() ==> #[trigger] self.frames_view()[i] == frame_view(self.frames@[i]),
    {
    }

    /// A compiler with the module's top-level frame alone.
    pub fn new() -> (c: Self)
        ensures
            c.wf(),
            c.frames_view() == seq![
                FrameV {
                    kind: FrameKind::Root,
                    locals: Map::empty(),
                    next_index: 0,
                    ival_map: Map::empty(),
                    ivals: Seq::empty(),
                    exports: Map::empty(),
                },
            ],
    {
        let c = Compiler { frames: vec![CompilerFrame::root()] };
        proof {
            assert(c.frames_view() =~= seq![
                FrameV {
                    kind: FrameKind::Root,
                    locals: Map::empty(),
                    next_index: 0,
                    ival_map: Map::empty(),
                    ivals: Seq::empty(),
                    exports: Map::empty(),
                },
            ]);
        }
        c
    }

    /// The code that builds the exports object of a module whose top level has been
    /// compiled: its exported names in some order (the order is not fixed).
    pub fn compile_exports(self) -> (r: IRBuilder)
        requires
            self.wf(),
            self.frames_view().len() == 1,
        ensures
            exists|es: Seq<(String, Address)>| entries_map(es) == self.frames_view()[0].exports
                && keys_distinct(es) && #[trigger] exports_code(es) == r@,
    {
        proof {
            self.lemma_frames_view();
        }
        let mut frames = self.frames;
        let f = frames.pop().unwrap();
        match f {
            CompilerFrame::Root(_, ex) => ex.compile(),
            _ => vstd::pervasive::unreached(),
        }
    }

    /// Enters a handler body that starts from the given captures.
    pub fn handler(&mut self, ivals: IVals)
        requires
            old(self).wf(),
        ensures
            final(self).wf(),
            final(self).frames_view() == old(self).frames_view().push(handler_frame(false, ivals.captured(), ivals.values())),
    {
        self.frames.push(CompilerFrame::handler(ivals));
        proof {
            assert(self.frames_view() =~= old(self).frames_view().push(handler_frame(false, ivals.captured(), ivals.values())));
        }
    }

    /// Enters a do-block handler body that starts from the given captures.
    pub fn do_handler(&mut self, ivals: IVals)
        requires
            old(self).wf(),
        ensures
            final(self).wf(),
            final(self).frames_view() == old(self).frames_view().push(handler_frame(true, ivals.captured(), ivals.values())),
    {
        self.frames.push(CompilerFrame::do_handler(ivals));
        proof {
            assert(self.frames_view() =~= old(self).frames_view().push(handler_frame(true, ivals.captured(), ivals.values())));
        }
    }

    /// Leaves a handler body, giving back its captures.
    pub fn end_handler(&mut self) -> (iv: IVals)
        requires
            old(self).wf(),
            old(self).frames_view().len() > 1,
        ensures
            final(self).wf(),
            final(self).frames_view() == old(self).frames_view().drop_last(),
            iv.captured() == old(self).top().ival_map,
            iv.values() == old(self).top().ivals,
    {
        proof {
            self.lemma_frames_view();
        }
        let f = self.frames.pop().unwrap();
        proof {
            assert(self.frames_view() =~= old(self).frames_view().drop_last());
        }
        f.ivals()
    }

    /// Binds `key` to the next slot of the top level and exports it; the binding stands
    /// even where the export fails (a handler body cannot export, a name is exported once).
    pub fn add_let_export(&mut self, key: String) -> (r: Compile<()>)
        requires
            old(self).wf(),
            old(self).top().next_index < usize::MAX,
        ensures
            final(self).wf(),
            ({
                let t = old(self).top();
                let bound = frame_bind(t, Some(key@), BindingRecord::Local(t.next_index));
                match t.kind {
                    FrameKind::Root => if t.exports.contains_key(key@) {
                        r matches Err(e) && error_view(e) == CompileErrorV::DuplicateExport(key@)
                            && final(self).frames_view() == replace_top(old(self).frames_view(), bound)
                    } else {
                        r is Ok && final(self).frames_view() == replace_top(
                            old(self).frames_view(),
                            FrameV { exports: t.exports.insert(key@, t.next_index), ..bound },
                        )
                    },
                    _ => r matches Err(e) && error_view(e) == CompileErrorV::InvalidExport(key@)
                        && final(self).frames_view() == replace_top(old(self).frames_view(), bound),
                }
            }),
    {
        proof {
            self.lemma_frames_view();
        }
        let export_name = key.clone();
        let f = self.frames.pop().unwrap();
        let (f1, address) = f.bind_local(Some(key));
        let (f2, r) = f1.add_export(export_name, address);
        self.frames.push(f2);
        proof {
            let t = old(self).top();
            let bound = frame_bind(t, Some(key@), BindingRecord::Local(t.next_index));
            if t.kind is Root && !t.exports.contains_key(key@) {
                assert(frame_view(f2) == FrameV { exports: t.exports.insert(key@, t.next_index), ..bound });
            } else {
                assert(frame_view(f2) == bound);
            }
            assert(self.frames_view() =~= replace_top(old(self).frames_view(), frame_view(f2)));
        }
        r
    }

    /// Binds `key` to the next slot of the innermost frame.
    pub fn add_let(&mut self, key: String)
        requires
            old(self).wf(),
            old(self).top().next_index < usize::MAX,
        ensures
            final(self).wf(),
            final(self).frames_view() == replace_top(
                old(self).frames_view(),
                frame_bind(old(self).top(), Some(key@), BindingRecord::Local(old(self).top().next_index)),
            ),
    {
        proof {
            self.lemma_frames_view();
        }
        let f = self.frames.pop().unwrap();
        let (f2, _) = f.bind_local(Some(key));
        self.frames.push(f2);
        proof {
            assert(self.frames_view() =~= replace_top(old(self).frames_view(), frame_view(f2)));
        }
    }

    /// Takes the next slot of the innermost frame without a name, and returns it.
    pub fn add_anon(&mut self) -> (address: Address)
        requires
            old(self).wf(),
            old(self).top().next_index < usize::MAX,
        ensures
            final(self).wf(),
            address == old(self).top().next_index,
            final(self).frames_view() == replace_top(
                old(self).frames_view(),
                frame_bind(old(self).top(), None, BindingRecord::Local(old(self).top().next_index)),
            ),
    {
        proof {
            self.lemma_frames_view();
        }
        let f = self.frames.pop().unwrap();
        let (f2, address) = f.bind_local(None);
        self.frames.push(f2);
        proof {
            assert(self.frames_view() =~= replace_top(old(self).frames_view(), frame_view(f2)));
        }
        address
    }

    /// Binds a `var` parameter to the next slot of the innermost frame.
    pub fn add_var_param(&mut self, key: String)
        requires
            old(self).wf(),
            old(self).top().next_index < usize::MAX,
        ensures
            final(self).wf(),
            final(self).frames_view() == replace_top(
                old(self).frames_view(),
                frame_bind(old(self).top(), Some(key@), BindingRecord::Var(old(self).top().next_index)),
            ),
    {
        proof {
            self.lemma_frames_view();
        }
        let f = self.frames.pop().unwrap();
        let f2 = f.add_var_param(key);
        self.frames.push(f2);
        proof {
            assert(self.frames_view() =~= replace_top(old(self).frames_view(), frame_view(f2)));
        }
    }

    /// Binds a `var` name in the innermost frame (two slots) and gives the code that makes
    /// its cell.
    pub fn add_var(&mut self, key: String) -> (r: CompileIR)
        requires
            old(self).wf(),
            old(self).top().next_index + 2 <= usize::MAX,
        ensures
            final(self).wf(),
            final(self).frames_view() == replace_top(old(self).frames_view(), frame_add_var(old(self).top(), key@)),
            r matches Ok(b) && b@ == seq![IRV::Var(old(self).top().next_index)],
    {
        proof {
            self.lemma_frames_view();
        }
        let f = self.frames.pop().unwrap();
        let (f2, index) = f.add_var(key);
        self.frames.push(f2);
        proof {
            assert(self.frames_view() =~= replace_top(old(self).frames_view(), frame_view(f2)));
        }
        let v = vec![IR::Var(index)];
        proof {
            lemma_body_view(v@);
            assert(body_view(v@) =~= seq![IRV::Var(index)]);
        }
        Ok(IRBuilder::from(v))
    }

    /// Binds a `do` parameter to the next slot of the innermost frame.
    pub fn add_do_param(&mut self, key: String)
        requires
            old(self).wf(),
            old(self).top().next_index < usize::MAX,
        ensures
            final(self).wf(),
            final(self).frames_view() == replace_top(
                old(self).frames_view(),
                frame_bind(old(self).top(), Some(key@), BindingRecord::Do(old(self).top().next_index)),
            ),
    {
        proof {
            self.lemma_frames_view();
        }
        let f = self.frames.pop().unwrap();
        let f2 = f.add_do_param(key);
        self.frames.push(f2);
        proof {
            assert(self.frames_view() =~= replace_top(old(self).frames_view(), frame_view(f2)));
        }
    }

    /// The code that reads `key` as a value.
    pub fn identifier(&mut self, key: String) -> (r: CompileIR)
        requires
            old(self).wf(),
        ensures
            final(self).wf(),
            final(self).frames_view().len() == old(self).frames_view().len(),
            ir_matches(r, lookup_then(old(self).frames_view(), key@, |rec: BindingRecord| record_identifier(rec, key@))),
            lookup_at(old(self).frames_view(), key@, (old(self).frames_view().len() - 1) as nat) matches Ok((st, _))
                ==> final(self).frames_view() == st,
    {
        let rec = self.get(&key)?;
        rec.identifier(key)
    }

    /// The code that reads `key` as the target of a send.
    pub fn target_identifier(&mut self, key: String) -> (r: CompileIR)
        requires
            old(self).wf(),
        ensures
            final(self).wf(),
            final(self).frames_view().len() == old(self).frames_view().len(),
            ir_matches(r, lookup_then(old(self).frames_view(), key@, |rec: BindingRecord| record_passed(rec, key@))),
            lookup_at(old(self).frames_view(), key@, (old(self).frames_view().len() - 1) as nat) matches Ok((st, _))
                ==> final(self).frames_view() == st,
    {
        let rec = self.get(&key)?;
        rec.passed(key)
    }

    /// The code that reads `key` as an argument of a send.
    pub fn arg_identifier(&mut self, key: String) -> (r: CompileIR)
        requires
            old(self).wf(),
        ensures
            final(self).wf(),
            final(self).frames_view().len() == old(self).frames_view().len(),
            ir_matches(r, lookup_then(old(self).frames_view(), key@, |rec: BindingRecord| record_passed(rec, key@))),
            lookup_at(old(self).frames_view(), key@, (old(self).frames_view().len() - 1) as nat) matches Ok((st, _))
                ==> final(self).frames_view() == st,
    {
        let rec = self.get(&key)?;
        rec.passed(key)
    }

    /// The code that passes `key` as a `var` argument.
    pub fn var_arg(&mut self, key: String) -> (r: CompileIR)
        requires
            old(self).wf(),
        ensures
            final(self).wf(),
            final(self).frames_view().len() == old(self).frames_view().len(),
            ir_matches(r, lookup_then(old(self).frames_view(), key@, |rec: BindingRecord| record_var_arg(rec, key@))),
            lookup_at(old(self).frames_view(), key@, (old(self).frames_view().len() - 1) as nat) matches Ok((st, _))
                ==> final(self).frames_view() == st,
    {
        let rec = self.get(&key)?;
        rec.var_arg(key)
    }

    /// The code that stores the value on the stack into the var `key`.
    pub fn set(&mut self, key: String) -> (r: CompileIR)
        requires
            old(self).wf(),
        ensures
            final(self).wf(),
            final(self).frames_view().len() == old(self).frames_view().len(),
            ir_matches(r, lookup_then(old(self).frames_view(), key@, |rec: BindingRecord| record_set(rec, key@))),
            lookup_at(old(self).frames_view(), key@, (old(self).frames_view().len() - 1) as nat) matches Ok((st, _))
                ==> final(self).frames_view() == st,
    {
        let rec = self.get(&key)?;
        rec.set(key)
    }

    /// Resolves `key` from the innermost frame, capturing it in every handler frame it
    /// passes through.
    pub fn get(&mut self, key: &String) -> (r: Compile<BindingRecord>)
        requires
            old(self).wf(),
        ensures
            final(self).wf(),
            match lookup_at(old(self).frames_view(), key@, (old(self).frames_view().len() - 1) as nat) {
                Ok((st, rec)) => r == Ok::<BindingRecord, CompileError>(rec) && final(self).frames_view() == st,
                Err(e) => r matches Err(e2) && error_view(e2) == e,
            },
            r matches Err(CompileError::UnknownIdentifier(_)) ==> final(self).frames_view() == old(
                self,
            ).frames_view(),
            final(self).frames_view().len() == old(self).frames_view().len(),
    {
        proof {
            self.lemma_frames_view();
        }
        self.get_at_depth(key, self.frames.len() - 1)
    }

    fn get_at_depth(&mut self, key: &String, depth: usize) -> (r: Compile<BindingRecord>)
        requires
            old(self).wf(),
            depth < old(self).frames_view().len(),
        ensures
            final(self).wf(),
            final(self).frames_view().len() == old(self).frames_view().len(),
            match lookup_at(old(self).frames_view(), key@, depth as nat) {
                Ok((st, rec)) => r == Ok::<BindingRecord, CompileError>(rec) && final(self).frames_view() == st,
                Err(e) => r matches Err(e2) && error_view(e2) == e,
            },
            r matches Err(CompileError::UnknownIdentifier(_)) ==> final(self).frames_view() == old(
                self,
            ).frames_view(),
        decreases depth,
    {
        proof {
            self.lemma_frames_view();
        }
        let ghost st0 = self.frames_view();
        let frame = &self.frames[depth];
        if let Some(record) = frame.get_local(key) {
            return Ok(record);
        }
        if let Some(record) = frame.get_ival(key) {
            return Ok(record);
        }
        if depth == 0 {
            return Err(CompileError::UnknownIdentifier(key.clone()));
        }
        let next = self.get_at_depth(key, depth - 1)?;
        proof {
            self.lemma_frames_view();
            lemma_lookup_at_frames(st0, key@, (depth - 1) as nat);
        }
        let frame = self.frames.remove(depth);
        let (frame2, ival) = frame.add_ival(key.clone(), next);
        self.frames.insert(depth, frame2);
        proof {
            self.lemma_frames_view();
            let st2 = lookup_at(st0, key@, (depth - 1) as nat)->Ok_0.0;
            assert(self.frames_view() =~= st2.update(depth as int, frame_view(frame2)));
        }
        ival
    }
}

} // verus!
