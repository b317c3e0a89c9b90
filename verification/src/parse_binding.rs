use vstd::prelude::*;

use crate::source::Source;

verus! {

/// A binding as the source-annotated parser reads it: a name, a placeholder, or a
/// destructuring by keys (kept in key order).
#[derive(Debug, PartialEq)]
pub enum Binding {
    Identifier(String, Source),
    Placeholder(Source),
    Destructuring(Vec<(String, Binding)>, Source),
}

} // verus!
