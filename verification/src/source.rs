use vstd::prelude::*;

verus! {

/// A span of the program text: where a syntax element starts and how long it is.
#[derive(Debug, PartialEq, Clone, Copy)]
pub struct Source {
    pub start: usize,
    pub length: usize,
}

impl Source {
    pub fn new(start: usize, length: usize) -> (s: Self)
        ensures
            s.start == start,
            s.length == length,
    {
        Source { start, length }
    }
}

} // verus!
