use vstd::prelude::*;

use crate::assoc::Assoc;
use crate::text::string_from_str;

verus! {

/// The kind of a name in a scope.
#[derive(Debug, PartialEq, Clone, Copy)]
pub enum ScopeType {
    Let,
}

/// Where a name lives: its slot and its kind.
#[derive(Debug, PartialEq, Clone, Copy)]
pub struct ScopeRecord {
    pub index: usize,
    pub typ: ScopeType,
}

/// Names bound so far, each with the slot it was given; slots are handed out in order.
#[derive(Debug, PartialEq)]
pub struct Scope {
    index: usize,
    map: Assoc<ScopeRecord>,
}

impl Scope {
    /// The next slot to hand out.
    pub closed spec fn next_index(&self) -> usize {
        self.index
    }

    /// The names bound and their records.
    pub closed spec fn records(&self) -> Map<Seq<char>, ScopeRecord> {
        self.map@
    }

    /// An empty scope whose first slot is 0.
    pub fn root() -> (s: Self)
        ensures
            s.next_index() == 0,
            s.records() == Map::<Seq<char>, ScopeRecord>::empty(),
    {
        Scope { index: 0, map: Assoc::new() }
    }

    /// The record bound to `key`, if any.
    pub fn get(&self, key: &str) -> (r: Option<ScopeRecord>)
        ensures
            r == (if self.records().contains_key(key@) {
                Some(self.records()[key@])
            } else {
                None::<ScopeRecord>
            }),
    {
        let k = string_from_str(key);
        self.map.get(&k)
    }

    /// Binds `key` (replacing an earlier binding of it) to the next slot, and returns
    /// its record.
    pub fn add(&mut self, key: String, typ: ScopeType) -> (r: ScopeRecord)
        requires
            old(self).next_index() < usize::MAX,
        ensures
            r == (ScopeRecord { index: old(self).next_index(), typ }),
            final(self).next_index() == old(self).next_index() + 1,
            final(self).records() == old(self).records().insert(key@, r),
    {
        let record = ScopeRecord { index: self.index, typ };
        self.index += 1;
        let _ = self.map.insert(key, record);
        record
    }
}

/// Reading a name just bound gives the record `add` returned; every other name reads as
/// before, and the next slot moves on by one.
pub proof fn law_scope_get_after_add(before: Scope, after: Scope, key: Seq<char>, r: ScopeRecord, other: Seq<char>)
    requires
        after.records() == before.records().insert(key, r),
        r.index == before.next_index(),
        after.next_index() == before.next_index() + 1,
    ensures
        after.records().contains_key(key) && after.records()[key] == r,
        other != key ==> after.records().contains_key(other) == before.records().contains_key(other),
        other != key && before.records().contains_key(other) ==> after.records()[other] == before.records()[other],
        after.next_index() > r.index,
{
}

/// The records of a root scope after adding each name of `adds` in order: each add binds
/// its name to the next slot.
pub open spec fn scope_records(adds: Seq<(Seq<char>, ScopeType)>) -> Map<Seq<char>, ScopeRecord>
    decreases adds.len(),
{
    if adds.len() == 0 {
        Map::empty()
    } else {
        scope_records(adds.drop_last()).insert(
            adds.last().0,
            ScopeRecord { index: (adds.len() - 1) as usize, typ: adds.last().1 },
        )
    }
}

/// The record of the last add of `key` in `adds`: its position and kind.
pub open spec fn last_add(adds: Seq<(Seq<char>, ScopeType)>, key: Seq<char>) -> Option<ScopeRecord>
    decreases adds.len(),
{
    if adds.len() == 0 {
        None
    } else if adds.last().0 == key {
        Some(ScopeRecord { index: (adds.len() - 1) as usize, typ: adds.last().1 })
    } else {
        last_add(adds.drop_last(), key)
    }
}

/// A root scope that has had `adds` added reads `key` as the record of its last add, or
/// not at all where it was never added; the next slot is the number of adds. The first
/// part is the step `add` takes, from a scope holding `scope_records(adds)`.
pub proof fn law_scope_get_after_adds(
    before: Scope,
    after: Scope,
    adds: Seq<(Seq<char>, ScopeType)>,
    key: Seq<char>,
    typ: ScopeType,
    probe: Seq<char>,
)
    requires
        adds.len() < usize::MAX,
        before.records() == scope_records(adds),
        before.next_index() == adds.len(),
        after.records() == before.records().insert(key, ScopeRecord { index: before.next_index(), typ }),
        after.next_index() == before.next_index() + 1,
    ensures
        after.records() == scope_records(adds.push((key, typ))),
        after.next_index() == adds.push((key, typ)).len(),
        after.records().contains_key(probe) == (last_add(adds.push((key, typ)), probe) is Some),
        last_add(adds.push((key, typ)), probe) matches Some(r) ==> after.records()[probe] == r,
{
    let a2 = adds.push((key, typ));
    assert(a2.drop_last() =~= adds);
    lemma_last_add(a2, probe);
}

proof fn lemma_last_add(adds: Seq<(Seq<char>, ScopeType)>, key: Seq<char>)
    ensures
        scope_records(adds).contains_key(key) == (last_add(adds, key) is Some),
        last_add(adds, key) matches Some(r) ==> scope_records(adds)[key] == r,
    decreases adds.len(),
{
    if adds.len() > 0 {
        lemma_last_add(adds.drop_last(), key);
    }
}

} // verus!
