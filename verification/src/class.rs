use vstd::prelude::*;

verus! {

/// How a handler takes an argument; patterns in parameters are expanded before this.
#[derive(Debug, Clone, PartialEq)]
pub enum Param {
    Value,
    Do,
    Var,
}

} // verus!
