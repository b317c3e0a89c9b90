use vstd::prelude::*;

use crate::assoc::Assoc;
use crate::ir::RuntimeError;
use crate::text::string_from_str;

verus! {

/// Where a module stands: its code not yet run, being run, or run to its value.
pub enum ModuleLoadState<C, V> {
    Init(C),
    Loading,
    Ready(V),
}

/// Why a module cannot be loaded: it is asked for while it is being run (an import
/// cycle), or no module of that name was added.
pub enum LoadFailure {
    Loop(Seq<char>),
    Unknown(Seq<char>),
}

/// What a load asks of its caller: nothing more (the module's value), or to run the
/// module's code and hand its value to `add_ready`.
pub enum ModuleLoad<C, V> {
    Ready(V),
    Evaluate(C),
}

/// The modules a program can import, by name. A module's code is run on its first
/// import; later imports get the value it produced.
pub struct ModuleLoader<C, V> {
    modules: Assoc<ModuleLoadState<C, V>>,
}

impl<C, V> View for ModuleLoader<C, V> {
    type V = Map<Seq<char>, ModuleLoadState<C, V>>;

    closed spec fn view(&self) -> Map<Seq<char>, ModuleLoadState<C, V>> {
        self.modules@
    }
}

/// What loading `name` from `m` gives, on every path but the one that runs code: the
/// state the loader is left in and the outcome.
pub open spec fn spec_load<C, V>(m: Map<Seq<char>, ModuleLoadState<C, V>>, name: Seq<char>) -> (
    Map<Seq<char>, ModuleLoadState<C, V>>,
    Result<ModuleLoad<C, V>, LoadFailure>,
) {
    if !m.contains_key(name) {
        (m, Err(LoadFailure::Unknown(name)))
    } else {
        match m[name] {
            ModuleLoadState::Loading => (m, Err(LoadFailure::Loop(name))),
            ModuleLoadState::Ready(v) => (m, Ok(ModuleLoad::Ready(v))),
            ModuleLoadState::Init(c) => (
                m.insert(name, ModuleLoadState::Loading),
                Ok(ModuleLoad::Evaluate(c)),
            ),
        }
    }
}

/// A module's code runs at most once: the first load of a module not yet run hands its
/// code out and marks it as being run; every load until its value is added reports a
/// load loop, and once the value is added every load gives that value and changes
/// nothing. Loading a name never added reports it unknown and changes nothing.
pub proof fn law_module_runs_once<C, V>(
    m: Map<Seq<char>, ModuleLoadState<C, V>>,
    name: Seq<char>,
    code: C,
    value: V,
    other: Seq<char>,
)
    requires
        m.contains_key(name),
        m[name] == ModuleLoadState::<C, V>::Init(code),
        !m.contains_key(other),
    ensures
        ({
            let (m1, r1) = spec_load(m, name);
            let (m2, r2) = spec_load(m1, name);
            let m3 = m1.insert(name, ModuleLoadState::Ready(value));
            let (m4, r4) = spec_load(m3, name);
            &&& r1 == Ok::<ModuleLoad<C, V>, LoadFailure>(ModuleLoad::Evaluate(code))
            &&& m2 == m1 && r2 == Err::<ModuleLoad<C, V>, LoadFailure>(LoadFailure::Loop(name))
            &&& m4 == m3 && r4 == Ok::<ModuleLoad<C, V>, LoadFailure>(ModuleLoad::Ready(value))
        }),
        spec_load(m, other) == (m, Err::<ModuleLoad<C, V>, LoadFailure>(LoadFailure::Unknown(other))),
{
}

impl<V: Clone, C> ModuleLoader<C, V> {
    pub fn new() -> (l: Self)
        ensures
            l@ == Map::<Seq<char>, ModuleLoadState<C, V>>::empty(),
    {
        ModuleLoader { modules: Assoc::new() }
    }

    /// Adds a module whose code runs on its first import (replacing any module of that
    /// name).
    pub fn add_init(&mut self, name: &str, ir: C)
        ensures
            final(self)@ == old(self)@.insert(name@, ModuleLoadState::Init(ir)),
    {
        let _ = self.modules.insert(string_from_str(name), ModuleLoadState::Init(ir));
    }

    /// Adds a module with its value (replacing any module of that name).
    pub fn add_ready(&mut self, name: &str, value: V)
        ensures
            final(self)@ == old(self)@.insert(name@, ModuleLoadState::Ready(value)),
    {
        let _ = self.modules.insert(string_from_str(name), ModuleLoadState::Ready(value));
    }

    /// Starts loading `name`. A module being run gives `ModuleLoadLoop`, an unknown name
    /// `UnknownModule`, both leaving the loader as it is; a ready module gives (a clone of)
    /// its value, leaving the loader as it is; a module not yet run is marked as being
    /// run and its code handed back to be run: the caller gives the value it produces to
    /// `add_ready`, and on an error leaves the module marked, so that a later import of it
    /// reports a load loop.
    pub fn load(&mut self, name: &str) -> (r: Result<ModuleLoad<C, V>, RuntimeError>)
        ensures
            final(self)@ == spec_load(old(self)@, name@).0,
            match (r, spec_load(old(self)@, name@).1) {
                (Ok(ModuleLoad::Ready(v)), Ok(ModuleLoad::Ready(w))) => cloned(w, v),
                (Ok(ModuleLoad::Evaluate(c)), Ok(ModuleLoad::Evaluate(d))) => c == d,
                (Err(e), Err(LoadFailure::Loop(n))) => e matches RuntimeError::ModuleLoadLoop(m) && m@ == n,
                (Err(e), Err(LoadFailure::Unknown(n))) => e matches RuntimeError::UnknownModule(m) && m@ == n,
                _ => false,
            },
    {
        let key = string_from_str(name);
        let found = match self.modules.get_ref(&key) {
            None => 0u8,
            Some(ModuleLoadState::Loading) => 1u8,
            Some(ModuleLoadState::Ready(v)) => {
                return Ok(ModuleLoad::Ready(v.clone()));
            },
            Some(ModuleLoadState::Init(_)) => 2u8,
        };
        if found == 0 {
            return Err(RuntimeError::UnknownModule(key));
        }
        if found == 1 {
            return Err(RuntimeError::ModuleLoadLoop(key));
        }
        match self.modules.insert(key, ModuleLoadState::Loading) {
            Some(ModuleLoadState::Init(c)) => Ok(ModuleLoad::Evaluate(c)),
            _ => {
                proof {
                    assert(false);
                }
                Err(RuntimeError::UnknownModule(string_from_str(name)))
            },
        }
    }
}

} // verus!
