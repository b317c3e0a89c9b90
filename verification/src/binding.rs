use vstd::prelude::*;

use crate::compiler::{frame_bind, replace_top, BindingRecord, Compiler};
use crate::source::Source;

verus! {

/// A binding with the place in the text it came from: a name, a placeholder, or a
/// destructuring by keys (kept in key order).
#[derive(Debug, PartialEq)]
pub enum Binding {
    Identifier(String, Source),
    Placeholder(Source),
    Destructuring(Vec<(String, Binding)>, Source),
}

/// What binding a parameter left to do: nothing, or destructuring the argument held in
/// a slot.
#[derive(Debug)]
pub enum BindParamResult {
    Complete,
    Destructuring(Vec<(String, Binding)>, usize),
}

impl Binding {
    /// Binds a handler parameter in the innermost frame: a name takes the next slot, a
    /// placeholder takes it without a name, and a destructuring takes it for the whole
    /// argument and leaves its parts for later.
    pub fn bind_param(self, compiler: &mut Compiler) -> (r: BindParamResult)
        requires
            old(compiler).wf(),
            old(compiler).top().next_index < usize::MAX,
        ensures
            final(compiler).wf(),
            ({
                let st = old(compiler).frames_view();
                let t = old(compiler).top();
                match self {
                    Binding::Identifier(key, _) => r is Complete && final(compiler).frames_view() == replace_top(
                        st,
                        frame_bind(t, Some(key@), BindingRecord::Local(t.next_index)),
                    ),
                    Binding::Placeholder(_) => r is Complete && final(compiler).frames_view() == replace_top(
                        st,
                        frame_bind(t, None, BindingRecord::Local(t.next_index)),
                    ),
                    Binding::Destructuring(map, _) => r == BindParamResult::Destructuring(
                        map,
                        t.next_index,
                    ) && final(compiler).frames_view() == replace_top(
                        st,
                        frame_bind(t, None, BindingRecord::Local(t.next_index)),
                    ),
                }
            }),
    {
        match self {
            Binding::Identifier(key, _) => {
                compiler.add_let(key);
                BindParamResult::Complete
            },
            Binding::Placeholder(_) => {
                compiler.add_anon();
                BindParamResult::Complete
            },
            Binding::Destructuring(map, _) => {
                let index = compiler.add_anon();
                BindParamResult::Destructuring(map, index)
            },
        }
    }
}

} // verus!
