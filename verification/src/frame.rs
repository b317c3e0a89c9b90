use vstd::prelude::*;

use crate::parse_error::{Parse, ParseError};
use crate::parser_2::{selector_of, selector_string};
use crate::runtime_2::{add_sorted, keys_of, keys_sorted, lookup_sorted};
use crate::sorted::{has_key, keyed, sorted_insert};
use crate::source::Source;

verus! {

/// A frame literal: a bare key (`[name]`), or keyed values (`[x: 1 y: 2]`) with the
/// selector their keys make, the pairs in key order. `E` is the expression type.
pub enum Frame<E> {
    Key(String),
    Pairs(String, Vec<(String, E)>),
}

/// The keyed values of a frame literal, collected as they are parsed.
pub struct FrameBuilder<E> {
    args: Vec<(String, E)>,
}

impl<E> View for FrameBuilder<E> {
    type V = Seq<(Seq<char>, E)>;

    /// The pairs so far, in key order.
    closed spec fn view(&self) -> Seq<(Seq<char>, E)> {
        keyed(self.args@)
    }
}

impl<E> FrameBuilder<E> {
    #[verifier::type_invariant]
    spec fn sorted(self) -> bool {
        keys_sorted(keys_of(keyed(self.args@)))
    }

    pub fn new() -> (b: Self)
        ensures
            b@ == Seq::<(Seq<char>, E)>::empty(),
    {
        FrameBuilder { args: Vec::new() }
    }

    /// A frame of a bare key; an error (at `source`) where pairs came before.
    pub fn build_key(self, key: String, source: Source) -> (r: Parse<Frame<E>>)
        ensures
            if self@.len() == 0 {
                r matches Ok(Frame::Key(k)) && k == key
            } else {
                r matches Err(ParseError::WithSource(e, s)) && s == source && (match *e {
                    ParseError::ExpectedPairGotKey(k) => k@ == key@,
                    _ => false,
                })
            },
    {
        if self.args.len() > 0 {
            return match ParseError::expected_pair_got_key::<Frame<E>>(key.as_str()) {
                Err(e) => Err(e.with_source(source)),
                Ok(f) => Ok(f),
            };
        }
        Ok(Frame::Key(key))
    }

    /// Adds the pair `key: value`; a key may appear once.
    pub fn add_pair(&mut self, key: String, value: E) -> (r: Parse<()>)
        ensures
            if lookup_sorted(old(self)@, key@) is Some {
                r matches Err(ParseError::DuplicateKey(k)) && k@ == key@ && final(self)@ == old(self)@
            } else {
                r is Ok && final(self)@ == add_sorted(old(self)@, key@, value)
            },
    {
        proof {
            use_type_invariant(&*self);
        }
        if has_key(&self.args, &key) {
            return ParseError::duplicate_key(key.as_str());
        }
        let mut args = Vec::new();
        std::mem::swap(&mut args, &mut self.args);
        sorted_insert(&mut args, key, value);
        self.args = args;
        Ok(())
    }

    /// The frame of the pairs: its selector is each key followed by `:`, in key order.
    pub fn build(self) -> (r: Parse<Frame<E>>)
        ensures
            r matches Ok(Frame::Pairs(sel, pairs)) && keyed(pairs@) == self@ && sel@ == selector_of(
                self@,
            ),
    {
        let selector = selector_string(&self.args);
        Ok(Frame::Pairs(selector, self.args))
    }
}

} // verus!
