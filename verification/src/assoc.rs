use vstd::prelude::*;

use crate::text::string_eq;

verus! {

/// The map that a list of (key, value) entries stands for, where keys are distinct.
pub open spec fn entries_map<V>(s: Seq<(String, V)>) -> Map<Seq<char>, V>
    decreases s.len(),
{
    if s.len() == 0 {
        Map::empty()
    } else {
        entries_map(s.drop_last()).insert(s.last().0@, s.last().1)
    }
}

/// No key occurs twice.
pub open spec fn keys_distinct<V>(s: Seq<(String, V)>) -> bool {
    forall|i: int, j: int| 0 <= i < j < s.len() ==> (#[trigger] s[i]).0@ != (#[trigger] s[j]).0@
}

pub proof fn lemma_entries_map<V>(s: Seq<(String, V)>)
    requires
        keys_distinct(s),
    ensures
        forall|k: Seq<char>|
            #![trigger entries_map(s).contains_key(k)]
            entries_map(s).contains_key(k) <==> exists|i: int| 0 <= i < s.len() && s[i].0@ == k,
        forall|i: int| 0 <= i < s.len() ==> #[trigger] entries_map(s)[s[i].0@] == s[i].1,
        entries_map(s).dom().len() == s.len(),
        entries_map(s).dom().finite(),
    decreases s.len(),
{
    if s.len() > 0 {
        let t = s.drop_last();
        assert(keys_distinct(t));
        lemma_entries_map(t);
        let m = entries_map(t);
        assert forall|k: Seq<char>| #![trigger entries_map(s).contains_key(k)]
            entries_map(s).contains_key(k) <==> exists|i: int| 0 <= i < s.len() && s[i].0@ == k by {
            if entries_map(s).contains_key(k) && k != s.last().0@ {
                let i = choose|i: int| 0 <= i < t.len() && t[i].0@ == k;
                assert(s[i] == t[i]);
            }
            if exists|i: int| 0 <= i < s.len() && s[i].0@ == k {
                let i = choose|i: int| 0 <= i < s.len() && s[i].0@ == k;
                if i < t.len() {
                    assert(s[i] == t[i]);
                    assert(m.contains_key(k));
                }
            }
        }
        assert forall|i: int| 0 <= i < s.len() implies #[trigger] entries_map(s)[s[i].0@] == s[i].1 by {
            if i < t.len() {
                assert(s[i] == t[i]);
                assert(s[i].0@ != s.last().0@);
            }
        }
        assert(!m.contains_key(s.last().0@)) by {
            if m.contains_key(s.last().0@) {
                let i = choose|i: int| 0 <= i < t.len() && t[i].0@ == s.last().0@;
                assert(s[i] == t[i]);
            }
        }
    }
}

/// A finite map from strings to values, kept as a list of entries with distinct keys
/// in insertion order.
#[derive(Debug, PartialEq)]
pub struct Assoc<V> {
    entries: Vec<(String, V)>,
}

impl<V> View for Assoc<V> {
    type V = Map<Seq<char>, V>;

    closed spec fn view(&self) -> Map<Seq<char>, V> {
        entries_map(self.entries@)
    }
}

impl<V> Assoc<V> {
    #[verifier::type_invariant]
    spec fn distinct(self) -> bool {
        keys_distinct(self.entries@)
    }

    /// The entries in insertion order.
    pub closed spec fn entry_seq(self) -> Seq<(String, V)> {
        self.entries@
    }
}

impl<V> Assoc<V> {

    pub fn new() -> (a: Self)
        ensures
            a@ == Map::<Seq<char>, V>::empty(),
            a.entry_seq() == Seq::<(String, V)>::empty(),
    {
        Assoc { entries: Vec::new() }
    }

    /// The position of the entry for `key`, if any.
    fn find(&self, key: &String) -> (r: Option<usize>)
        ensures
            match r {
                Some(i) => i < self.entries@.len() && self.entries@[i as int].0@ == key@,
                None => forall|i: int| 0 <= i < self.entries@.len() ==> self.entries@[i].0@ != key@,
            },
    {
        let n = self.entries.len();
        let mut i: usize = 0;
        while i < n
            invariant
                n == self.entries@.len(),
                i <= n,
                forall|j: int| 0 <= j < i ==> self.entries@[j].0@ != key@,
            decreases n - i,
        {
            if string_eq(&self.entries[i].0, key) {
                return Some(i);
            }
            i = i + 1;
        }
        None
    }

    /// The value for `key`, by reference, if any.
    pub fn get_ref(&self, key: &String) -> (r: Option<&V>)
        ensures
            match r {
                Some(v) => self@.contains_key(key@) && *v == self@[key@],
                None => !self@.contains_key(key@),
            },
    {
        proof {
            use_type_invariant(self);
            lemma_entries_map(self.entries@);
        }
        match self.find(key) {
            Some(i) => Some(&self.entries[i].1),
            None => None,
        }
    }

    pub fn contains_key(&self, key: &String) -> (r: bool)
        ensures
            r == self@.contains_key(key@),
    {
        proof {
            use_type_invariant(self);
            lemma_entries_map(self.entries@);
        }
        self.find(key).is_some()
    }

    /// Sets the value for `key`; returns the value it replaced, if any.
    pub fn insert(&mut self, key: String, value: V) -> (r: Option<V>)
        ensures
            final(self)@ == old(self)@.insert(key@, value),
            r == (if old(self)@.contains_key(key@) {
                Some(old(self)@[key@])
            } else {
                None::<V>
            }),
            !old(self)@.contains_key(key@) ==> final(self).entry_seq() == old(self).entry_seq().push(
                (key, value),
            ),
    {
        proof {
            use_type_invariant(&*self);
            lemma_entries_map(self.entries@);
        }
        let ghost old_entries = self.entries@;
        let mut es: Vec<(String, V)> = Vec::new();
        std::mem::swap(&mut es, &mut self.entries);
        match self.find_in(&es, &key) {
            Some(i) => {
                let (_, old_value) = es.remove(i);
                es.insert(i, (key, value));
                proof {
                    assert(es@ == old_entries.update(i as int, (key, value)));
                    assert(keys_distinct(es@));
                    lemma_entries_map(es@);
                    lemma_entries_map(old_entries);
                    let m1 = entries_map(es@);
                    let m2 = entries_map(old_entries).insert(key@, value);
                    assert forall|k: Seq<char>| m1.contains_key(k) <==> m2.contains_key(k) by {
                        assert(es@[i as int].0@ == key@);
                        if k == key@ {
                            assert(m1.contains_key(k));
                        }
                        if m2.contains_key(k) && k != key@ {
                            assert(entries_map(old_entries).contains_key(k));
                            let j = choose|j: int| 0 <= j < old_entries.len() && old_entries[j].0@ == k;
                            assert(es@[j] == old_entries[j]);
                        }
                        if m1.contains_key(k) && k != key@ {
                            let j = choose|j: int| 0 <= j < es@.len() && es@[j].0@ == k;
                            assert(j != i);
                            assert(es@[j] == old_entries[j]);
                            assert(entries_map(old_entries).contains_key(k));
                        }
                    }
                    assert forall|k: Seq<char>| m1.contains_key(k) implies m1[k] == m2[k] by {
                        let j = choose|j: int| 0 <= j < es@.len() && es@[j].0@ == k;
                        if j != i {
                            assert(es@[j] == old_entries[j]);
                        }
                    }
                    assert(m1 =~= m2);
                }
                self.entries = es;
                Some(old_value)
            },
            None => {
                es.push((key, value));
                proof {
                    assert(keys_distinct(es@));
                    assert(es@.drop_last() == old_entries);
                }
                self.entries = es;
                None
            },
        }
    }

    fn find_in(&self, es: &Vec<(String, V)>, key: &String) -> (r: Option<usize>)
        ensures
            match r {
                Some(i) => i < es@.len() && es@[i as int].0@ == key@,
                None => forall|i: int| 0 <= i < es@.len() ==> es@[i].0@ != key@,
            },
    {
        let n = es.len();
        let mut i: usize = 0;
        while i < n
            invariant
                n == es@.len(),
                i <= n,
                forall|j: int| 0 <= j < i ==> es@[j].0@ != key@,
            decreases n - i,
        {
            if string_eq(&es[i].0, key) {
                return Some(i);
            }
            i = i + 1;
        }
        None
    }

    pub fn len(&self) -> (n: usize)
        ensures
            n == self@.dom().len(),
            n == self.entry_seq().len(),
    {
        proof {
            use_type_invariant(self);
            lemma_entries_map(self.entries@);
        }
        self.entries.len()
    }

    /// The entries, in insertion order.
    pub fn to_vec(self) -> (v: Vec<(String, V)>)
        ensures
            v@ == self.entry_seq(),
            entries_map(v@) == self@,
            keys_distinct(v@),
    {
        proof {
            use_type_invariant(&self);
        }
        self.entries
    }
}

impl<V: Copy> Assoc<V> {
    pub fn get(&self, key: &String) -> (r: Option<V>)
        ensures
            r == (if self@.contains_key(key@) {
                Some(self@[key@])
            } else {
                None::<V>
            }),
    {
        proof {
            use_type_invariant(self);
            lemma_entries_map(self.entries@);
        }
        match self.find(key) {
            Some(i) => Some(self.entries[i].1),
            None => None,
        }
    }
}

} // verus!
