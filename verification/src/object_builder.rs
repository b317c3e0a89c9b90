use vstd::prelude::*;

use crate::compiler::Compile;
use crate::parse_binding::Binding;
use crate::parse_error::{Parse, ParseError};
use crate::runtime_2::{add_sorted, keys_of, keys_sorted, lookup_sorted};
use crate::sorted::{has_key, keyed, lemma_add_sorted_map, lemma_lookup_map_entries, map_entries, sorted_insert};
use crate::text::string_from_str;

verus! {

/// The names a module exports and the slots holding their values, in name order.
#[derive(Debug)]
pub struct Exports {
    exports: Vec<(String, usize)>,
}

impl Exports {
    #[verifier::type_invariant]
    spec fn sorted(self) -> bool {
        keys_sorted(keys_of(keyed(self.exports@)))
    }

    /// The exported names and slots, in name order.
    pub closed spec fn entries(&self) -> Seq<(Seq<char>, usize)> {
        keyed(self.exports@)
    }

    /// No exports.
    pub fn new() -> (e: Self)
        ensures
            e.entries() == Seq::<(Seq<char>, usize)>::empty(),
    {
        let e = Exports { exports: Vec::new() };
        assert(keyed(e.exports@) =~= Seq::<(Seq<char>, usize)>::empty());
        e
    }

    /// Exports `key` as the value in slot `index`. A name is exported once.
    pub fn add(&mut self, key: &str, index: usize) -> (r: Compile<()>)
        requires
            lookup_sorted(old(self).entries(), key@) is None,
        ensures
            r is Ok,
            final(self).entries() == add_sorted(old(self).entries(), key@, index),
    {
        proof {
            use_type_invariant(&*self);
        }
        let mut es: Vec<(String, usize)> = Vec::new();
        std::mem::swap(&mut es, &mut self.exports);
        sorted_insert(&mut es, string_from_str(key), index);
        self.exports = es;
        Ok(())
    }
}

/// A handler parameter: a value bound by a pattern, or a `var` or `do` name.
#[derive(Debug)]
enum Param {
    Value(Binding),
    Var(String),
    Do(String),
}

#[derive(Debug)]
enum ParamWithMatch {
    Param(Param),
}

#[derive(Debug)]
enum ParseParam {
    Param(ParamWithMatch),
}

/// The view of a parameter as the builder holds it.
pub enum ParamV {
    Value(Binding),
    Var(Seq<char>),
    Do(Seq<char>),
}

spec fn parse_param_view(p: ParseParam) -> ParamV {
    match p {
        ParseParam::Param(ParamWithMatch::Param(Param::Value(b))) => ParamV::Value(b),
        ParseParam::Param(ParamWithMatch::Param(Param::Var(s))) => ParamV::Var(s@),
        ParseParam::Param(ParamWithMatch::Param(Param::Do(s))) => ParamV::Do(s@),
    }
}

spec fn parse_param_view_fn() -> spec_fn(ParseParam) -> ParamV {
    |p: ParseParam| parse_param_view(p)
}

/// The head of a handler being read: a lone key, or keyed parameters.
#[derive(Debug)]
pub enum ParamsBuilder {
    KeyBuilder(String),
    PairBuilder(PairParamsBuilder),
}

/// The bindings of keyed value parameters, in key order.
pub open spec fn destructured(es: Seq<(Seq<char>, ParamV)>) -> Seq<(Seq<char>, Binding)> {
    es.map_values(|e: (Seq<char>, ParamV)| (e.0, e.1->Value_0))
}

impl ParamsBuilder {
    /// A head made of a lone key.
    pub fn key(key: String) -> (b: Self)
        ensures
            b == ParamsBuilder::KeyBuilder(key),
    {
        ParamsBuilder::KeyBuilder(key)
    }

    /// The head read as a destructuring pattern: each key with the binding of its value
    /// parameter, in key order. Only keyed value parameters can be read this way.
    pub fn build_destructuring(self) -> (r: Parse<Vec<(String, Binding)>>)
        requires
            self is PairBuilder,
            forall|i: int|
                0 <= i < self->PairBuilder_0.entries().len() ==> #[trigger] self->PairBuilder_0.entries()[i].1 is Value,
        ensures
            r matches Ok(v) && keyed(v@) == destructured(self->PairBuilder_0.entries()),
    {
        match self {
            ParamsBuilder::KeyBuilder(_) => vstd::pervasive::unreached(),
            ParamsBuilder::PairBuilder(pairs) => {
                let ghost es = pairs.entries();
                let mut params = pairs.params;
                let mut rev: Vec<(String, Binding)> = Vec::new();
                let ghost all = params@;
                proof {
                    assert(es == map_entries(keyed(all), parse_param_view_fn()));
                }
                while params.len() > 0
                    invariant
                        es == map_entries(keyed(all), parse_param_view_fn()),
                        forall|i: int| 0 <= i < es.len() ==> #[trigger] es[i].1 is Value,
                        params@.len() + rev@.len() == all.len(),
                        params@ == all.subrange(0, params@.len() as int),
                        forall|i: int|
                            0 <= i < rev@.len() ==> (#[trigger] rev@[i]).0@ == es[all.len() - 1 - i].0
                                && rev@[i].1 == es[all.len() - 1 - i].1->Value_0,
                    decreases params@.len(),
                {
                    let ghost k = params@.len() - 1;
                    let (key, param) = params.pop().unwrap();
                    assert(es[k].1 is Value);
                    match param {
                        ParseParam::Param(ParamWithMatch::Param(Param::Value(binding))) => {
                            rev.push((key, binding));
                        },
                        _ => {
                            vstd::pervasive::unreached::<()>();
                        },
                    }
                }
                let mut out: Vec<(String, Binding)> = Vec::new();
                let ghost r = rev@;
                while rev.len() > 0
                    invariant
                        rev@.len() + out@.len() == all.len(),
                        rev@ == r.subrange(0, rev@.len() as int),
                        r.len() == all.len(),
                        forall|i: int|
                            0 <= i < r.len() ==> (#[trigger] r[i]).0@ == es[all.len() - 1 - i].0
                                && r[i].1 == es[all.len() - 1 - i].1->Value_0,
                        forall|i: int|
                            0 <= i < out@.len() ==> (#[trigger] out@[i]).0@ == es[i].0 && out@[i].1
                                == es[i].1->Value_0,
                        es.len() == all.len(),
                    decreases rev@.len(),
                {
                    let e = rev.pop().unwrap();
                    out.push(e);
                }
                assert(keyed(out@) =~= destructured(es));
                Ok(out)
            },
        }
    }
}

/// Keyed handler parameters collected in key order.
#[derive(Debug)]
pub struct PairParamsBuilder {
    params: Vec<(String, ParseParam)>,
}

impl PairParamsBuilder {
    #[verifier::type_invariant]
    spec fn sorted(self) -> bool {
        keys_sorted(keys_of(keyed(self.params@)))
    }

    /// The keyed parameters, in key order.
    pub closed spec fn entries(&self) -> Seq<(Seq<char>, ParamV)> {
        map_entries(keyed(self.params@), parse_param_view_fn())
    }

    /// No parameters.
    pub fn new() -> (b: Self)
        ensures
            b.entries() == Seq::<(Seq<char>, ParamV)>::empty(),
    {
        let b = PairParamsBuilder { params: Vec::new() };
        assert(keyed(b.params@) =~= Seq::<(Seq<char>, ParseParam)>::empty());
        assert(b.entries() =~= Seq::<(Seq<char>, ParamV)>::empty());
        b
    }

    /// Adds `key: binding`, a value parameter.
    pub fn add_value(&mut self, key: String, binding: Binding) -> (r: Parse<()>)
        ensures
            if lookup_sorted(old(self).entries(), key@) is Some {
                r matches Err(ParseError::DuplicateKey(s)) && s@ == key@ && final(self).entries()
                    == old(self).entries()
            } else {
                r is Ok && final(self).entries() == add_sorted(
                    old(self).entries(),
                    key@,
                    ParamV::Value(binding),
                )
            },
    {
        self.add(key, ParseParam::Param(ParamWithMatch::Param(Param::Value(binding))))
    }

    /// Adds `key: var ident`.
    pub fn add_var(&mut self, key: String, ident: String) -> (r: Parse<()>)
        ensures
            if lookup_sorted(old(self).entries(), key@) is Some {
                r matches Err(ParseError::DuplicateKey(s)) && s@ == key@ && final(self).entries()
                    == old(self).entries()
            } else {
                r is Ok && final(self).entries() == add_sorted(old(self).entries(), key@, ParamV::Var(ident@))
            },
    {
        self.add(key, ParseParam::Param(ParamWithMatch::Param(Param::Var(ident))))
    }

    /// Adds `key: do ident`.
    pub fn add_do(&mut self, key: String, ident: String) -> (r: Parse<()>)
        ensures
            if lookup_sorted(old(self).entries(), key@) is Some {
                r matches Err(ParseError::DuplicateKey(s)) && s@ == key@ && final(self).entries()
                    == old(self).entries()
            } else {
                r is Ok && final(self).entries() == add_sorted(old(self).entries(), key@, ParamV::Do(ident@))
            },
    {
        self.add(key, ParseParam::Param(ParamWithMatch::Param(Param::Do(ident))))
    }

    fn add(&mut self, key: String, param: ParseParam) -> (r: Parse<()>)
        ensures
            if lookup_sorted(old(self).entries(), key@) is Some {
                r matches Err(ParseError::DuplicateKey(s)) && s@ == key@ && final(self).entries()
                    == old(self).entries()
            } else {
                r is Ok && final(self).entries() == add_sorted(
                    old(self).entries(),
                    key@,
                    parse_param_view(param),
                )
            },
    {
        proof {
            use_type_invariant(&*self);
            lemma_lookup_map_entries(keyed(self.params@), key@, parse_param_view_fn());
            lemma_add_sorted_map(keyed(self.params@), key@, param, parse_param_view_fn());
        }
        if has_key(&self.params, &key) {
            return ParseError::duplicate_key(key.as_str());
        }
        let mut ps: Vec<(String, ParseParam)> = Vec::new();
        std::mem::swap(&mut ps, &mut self.params);
        sorted_insert(&mut ps, key, param);
        self.params = ps;
        Ok(())
    }
}

} // verus!
