use vstd::prelude::*;

use crate::runtime_2::{add_sorted, key_pos, keys_of, keys_sorted, lookup_sorted};
use crate::text::{
    lemma_seq_lt_asymmetric, lemma_seq_lt_irreflexive, lemma_seq_lt_total, lemma_seq_lt_transitive,
    seq_lt, string_eq, string_lt,
};

verus! {

/// A list of string-keyed entries viewed with character-sequence keys.
pub open spec fn keyed<H>(hs: Seq<(String, H)>) -> Seq<(Seq<char>, H)> {
    hs.map_values(|e: (String, H)| (e.0@, e.1))
}

pub proof fn lemma_key_pos_props(keys: Seq<Seq<char>>, sel: Seq<char>)
    ensures
        key_pos(keys, sel) <= keys.len(),
        forall|i: int| 0 <= i < key_pos(keys, sel) ==> seq_lt(#[trigger] keys[i], sel),
        key_pos(keys, sel) < keys.len() ==> !seq_lt(keys[key_pos(keys, sel) as int], sel),
    decreases keys.len(),
{
    if keys.len() > 0 && seq_lt(keys[0], sel) {
        lemma_key_pos_props(keys.drop_first(), sel);
        assert forall|i: int| 0 <= i < key_pos(keys, sel) implies seq_lt(#[trigger] keys[i], sel) by {
            if i > 0 {
                assert(keys.drop_first()[i - 1] == keys[i]);
            }
        }
    }
}

/// Adding to a sorted list keeps it sorted.
pub proof fn lemma_add_sorted_sorted<H>(hs: Seq<(Seq<char>, H)>, sel: Seq<char>, h: H)
    requires
        keys_sorted(keys_of(hs)),
    ensures
        keys_sorted(keys_of(add_sorted(hs, sel, h))),
{
    let keys = keys_of(hs);
    let p = key_pos(keys, sel) as int;
    lemma_key_pos_props(keys, sel);
    let r = add_sorted(hs, sel, h);
    let rk = keys_of(r);
    if p < hs.len() && hs[p].0 == sel {
        assert forall|i: int, j: int| 0 <= i < j < rk.len() implies seq_lt(#[trigger] rk[i], #[trigger] rk[j]) by {
            assert(rk[i] == keys[i]);
            assert(rk[j] == keys[j]);
        }
    } else {
        assert forall|k: int| p <= k < keys.len() implies seq_lt(sel, #[trigger] keys[k]) by {
            lemma_seq_lt_total(keys[p], sel);
            if k > p {
                assert(seq_lt(keys[p], keys[k]));
                lemma_seq_lt_total(sel, keys[p]);
                if seq_lt(sel, keys[p]) {
                    lemma_seq_lt_transitive(sel, keys[p], keys[k]);
                }
            } else {
                assert(keys[p] != sel);
            }
        }
        assert forall|i: int, j: int| 0 <= i < j < rk.len() implies seq_lt(#[trigger] rk[i], #[trigger] rk[j]) by {
            if j < p {
                assert(rk[i] == keys[i] && rk[j] == keys[j]);
            } else if j == p {
                assert(rk[i] == keys[i] && rk[j] == sel);
            } else if i < p {
                assert(rk[i] == keys[i] && rk[j] == keys[j - 1]);
                assert(seq_lt(sel, keys[j - 1]));
                lemma_seq_lt_transitive(keys[i], sel, keys[j - 1]);
            } else if i == p {
                assert(rk[i] == sel && rk[j] == keys[j - 1]);
            } else {
                assert(rk[i] == keys[i - 1] && rk[j] == keys[j - 1]);
            }
        }
    }
}

/// In a sorted list, a selector is found exactly when some entry has it.
pub proof fn lemma_lookup_sorted<H>(hs: Seq<(Seq<char>, H)>, sel: Seq<char>)
    ensures
        lookup_sorted(hs, sel) is Some <==> exists|i: int| 0 <= i < hs.len() && hs[i].0 == sel,
    decreases hs.len(),
{
    if hs.len() > 0 {
        lemma_lookup_sorted(hs.drop_first(), sel);
        if hs[0].0 != sel {
            if exists|i: int| 0 <= i < hs.len() && hs[i].0 == sel {
                let i = choose|i: int| 0 <= i < hs.len() && hs[i].0 == sel;
                assert(hs.drop_first()[i - 1] == hs[i]);
            }
        }
    }
}

/// After adding `sel`, looking up `sel` gives the added value, and every other selector
/// gives what it gave before.
pub proof fn lemma_lookup_add_sorted<H>(hs: Seq<(Seq<char>, H)>, sel: Seq<char>, h: H, other: Seq<char>)
    ensures
        lookup_sorted(add_sorted(hs, sel, h), sel) == Some(h),
        other != sel ==> lookup_sorted(add_sorted(hs, sel, h), other) == lookup_sorted(hs, other),
    decreases hs.len(),
{
    let keys = keys_of(hs);
    lemma_key_pos_props(keys, sel);
    let p = key_pos(keys, sel) as int;
    if hs.len() == 0 {
        let r = add_sorted(hs, sel, h);
        assert(r =~= seq![(sel, h)]);
        assert(r.drop_first() =~= Seq::<(Seq<char>, H)>::empty());
        assert(lookup_sorted(r.drop_first(), other) is None);
    } else if p == 0 {
        let r = add_sorted(hs, sel, h);
        if hs[0].0 == sel {
            assert(r.drop_first() =~= hs.drop_first());
            if other != sel {
                assert(lookup_sorted(r, other) == lookup_sorted(r.drop_first(), other));
                assert(lookup_sorted(hs, other) == lookup_sorted(hs.drop_first(), other));
            }
        } else {
            assert(r.drop_first() =~= hs);
            if other != sel {
                assert(lookup_sorted(r, other) == lookup_sorted(r.drop_first(), other));
            }
        }
    } else {
        let t = hs.drop_first();
        assert(keys_of(t) =~= keys.drop_first());
        assert(seq_lt(keys[0], sel));
        lemma_lookup_add_sorted(t, sel, h, other);
        let r = add_sorted(hs, sel, h);
        assert(r[0] == hs[0]);
        assert(r.drop_first() =~= add_sorted(t, sel, h));
        lemma_seq_lt_asymmetric(keys[0], sel);
    }
}

/// The entries with each value mapped by `f`.
pub open spec fn map_entries<H, W>(hs: Seq<(Seq<char>, H)>, f: spec_fn(H) -> W) -> Seq<(Seq<char>, W)> {
    hs.map_values(|e: (Seq<char>, H)| (e.0, f(e.1)))
}

/// Mapping the values leaves the keys as they are.
pub proof fn lemma_map_entries_keys<H, W>(hs: Seq<(Seq<char>, H)>, f: spec_fn(H) -> W)
    ensures
        keys_of(map_entries(hs, f)) == keys_of(hs),
{
    assert(keys_of(map_entries(hs, f)) =~= keys_of(hs));
}

/// Adding an entry commutes with mapping the values.
pub proof fn lemma_add_sorted_map<H, W>(hs: Seq<(Seq<char>, H)>, sel: Seq<char>, h: H, f: spec_fn(H) -> W)
    ensures
        map_entries(add_sorted(hs, sel, h), f) == add_sorted(map_entries(hs, f), sel, f(h)),
{
    lemma_map_entries_keys(hs, f);
    let p = key_pos(keys_of(hs), sel) as int;
    lemma_key_pos_props(keys_of(hs), sel);
    if p < hs.len() && hs[p].0 == sel {
        assert(map_entries(hs, f)[p].0 == sel);
        assert(map_entries(add_sorted(hs, sel, h), f) =~= add_sorted(map_entries(hs, f), sel, f(h)));
    } else {
        if p < hs.len() {
            assert(map_entries(hs, f)[p].0 == hs[p].0);
        }
        assert(map_entries(add_sorted(hs, sel, h), f) =~= add_sorted(map_entries(hs, f), sel, f(h)));
    }
}

/// A key is present after mapping the values exactly when it was before.
pub proof fn lemma_lookup_map_entries<H, W>(hs: Seq<(Seq<char>, H)>, sel: Seq<char>, f: spec_fn(H) -> W)
    ensures
        lookup_sorted(map_entries(hs, f), sel) == match lookup_sorted(hs, sel) {
            Some(h) => Some(f(h)),
            None => None::<W>,
        },
    decreases hs.len(),
{
    if hs.len() > 0 {
        assert(map_entries(hs, f).drop_first() =~= map_entries(hs.drop_first(), f));
        lemma_lookup_map_entries(hs.drop_first(), sel, f);
    }
}

/// Two lists sorted strictly by key that hold the same entries are the same list.
pub proof fn lemma_sorted_same_entries<H>(a: Seq<(Seq<char>, H)>, b: Seq<(Seq<char>, H)>)
    requires
        keys_sorted(keys_of(a)),
        keys_sorted(keys_of(b)),
        forall|x: (Seq<char>, H)| #[trigger] a.contains(x) <==> b.contains(x),
    ensures
        a == b,
    decreases a.len(),
{
    if a.len() == 0 {
        if b.len() > 0 {
            assert(b.contains(b[0]));
            assert(a.contains(b[0]));
        }
        assert(a =~= b);
    } else {
        assert(a.contains(a[0]));
        assert(b.contains(a[0]));
        let j = choose|j: int| 0 <= j < b.len() && b[j] == a[0];
        assert(b.contains(b[0]));
        assert(a.contains(b[0]));
        let i = choose|i: int| 0 <= i < a.len() && a[i] == b[0];
        if i > 0 && j > 0 {
            assert(seq_lt(keys_of(a)[0], keys_of(a)[i]));
            assert(seq_lt(keys_of(b)[0], keys_of(b)[j]));
            lemma_seq_lt_asymmetric(keys_of(a)[0], keys_of(a)[i]);
        } else if i > 0 {
            assert(b[0] == a[0]);
        } else {
            assert(a[0] == b[0]);
        }
        assert(a[0] == b[0]);
        let ta = a.drop_first();
        let tb = b.drop_first();
        assert forall|x: (Seq<char>, H)| #[trigger] ta.contains(x) <==> tb.contains(x) by {
            if ta.contains(x) {
                let m = choose|m: int| 0 <= m < ta.len() && ta[m] == x;
                assert(a[m + 1] == x);
                assert(a.contains(x));
                assert(b.contains(x));
                let n = choose|n: int| 0 <= n < b.len() && b[n] == x;
                if n == 0 {
                    assert(seq_lt(keys_of(a)[0], keys_of(a)[m + 1]));
                    lemma_seq_lt_irreflexive(keys_of(a)[0]);
                }
                assert(tb[n - 1] == x);
            }
            if tb.contains(x) {
                let m = choose|m: int| 0 <= m < tb.len() && tb[m] == x;
                assert(b[m + 1] == x);
                assert(b.contains(x));
                assert(a.contains(x));
                let n = choose|n: int| 0 <= n < a.len() && a[n] == x;
                if n == 0 {
                    assert(seq_lt(keys_of(b)[0], keys_of(b)[m + 1]));
                    lemma_seq_lt_irreflexive(keys_of(b)[0]);
                }
                assert(ta[n - 1] == x);
            }
        }
        assert(keys_sorted(keys_of(ta))) by {
            assert forall|p: int, q: int| 0 <= p < q < keys_of(ta).len() implies seq_lt(
                #[trigger] keys_of(ta)[p],
                #[trigger] keys_of(ta)[q],
            ) by {
                assert(keys_of(ta)[p] == keys_of(a)[p + 1]);
                assert(keys_of(ta)[q] == keys_of(a)[q + 1]);
            }
        }
        assert(keys_sorted(keys_of(tb))) by {
            assert forall|p: int, q: int| 0 <= p < q < keys_of(tb).len() implies seq_lt(
                #[trigger] keys_of(tb)[p],
                #[trigger] keys_of(tb)[q],
            ) by {
                assert(keys_of(tb)[p] == keys_of(b)[p + 1]);
                assert(keys_of(tb)[q] == keys_of(b)[q + 1]);
            }
        }
        lemma_sorted_same_entries(ta, tb);
        assert(a =~= b) by {
            assert forall|k: int| 0 <= k < a.len() implies a[k] == b[k] by {
                if k > 0 {
                    assert(a[k] == ta[k - 1]);
                    assert(b[k] == tb[k - 1]);
                }
            }
        }
    }
}

/// Adding an entry under a new key gives the old entries and the new one.
pub proof fn lemma_add_sorted_entries<H>(hs: Seq<(Seq<char>, H)>, sel: Seq<char>, h: H)
    requires
        lookup_sorted(hs, sel) is None,
    ensures
        forall|x: (Seq<char>, H)| #[trigger] add_sorted(hs, sel, h).contains(x) <==> (hs.contains(x) || x == (sel, h)),
{
    lemma_lookup_sorted(hs, sel);
    lemma_key_pos_props(keys_of(hs), sel);
    let p = key_pos(keys_of(hs), sel) as int;
    let r = add_sorted(hs, sel, h);
    if p < hs.len() {
        assert(hs[p].0 != sel);
    }
    assert(r == hs.insert(p, (sel, h)));
    assert forall|x: (Seq<char>, H)| #[trigger] r.contains(x) <==> (hs.contains(x) || x == (sel, h)) by {
        if r.contains(x) {
            let m = choose|m: int| 0 <= m < r.len() && r[m] == x;
            if m < p {
                assert(hs[m] == x);
            } else if m > p {
                assert(hs[m - 1] == x);
            }
        }
        if hs.contains(x) {
            let m = choose|m: int| 0 <= m < hs.len() && hs[m] == x;
            if m < p {
                assert(r[m] == x);
            } else {
                assert(r[m + 1] == x);
            }
        }
        if x == (sel, h) {
            assert(r[p] == x);
        }
    }
}

/// Adding entries under two different new keys gives the same list in either order.
pub proof fn lemma_add_sorted_commute<H>(hs: Seq<(Seq<char>, H)>, k1: Seq<char>, v1: H, k2: Seq<char>, v2: H)
    requires
        keys_sorted(keys_of(hs)),
        k1 != k2,
        lookup_sorted(hs, k1) is None,
        lookup_sorted(hs, k2) is None,
    ensures
        lookup_sorted(add_sorted(hs, k1, v1), k2) is None,
        lookup_sorted(add_sorted(hs, k2, v2), k1) is None,
        add_sorted(add_sorted(hs, k1, v1), k2, v2) == add_sorted(add_sorted(hs, k2, v2), k1, v1),
{
    lemma_lookup_add_sorted(hs, k1, v1, k2);
    lemma_lookup_add_sorted(hs, k2, v2, k1);
    let a1 = add_sorted(hs, k1, v1);
    let b1 = add_sorted(hs, k2, v2);
    lemma_add_sorted_sorted(hs, k1, v1);
    lemma_add_sorted_sorted(hs, k2, v2);
    lemma_add_sorted_sorted(a1, k2, v2);
    lemma_add_sorted_sorted(b1, k1, v1);
    lemma_add_sorted_entries(hs, k1, v1);
    lemma_add_sorted_entries(hs, k2, v2);
    lemma_add_sorted_entries(a1, k2, v2);
    lemma_add_sorted_entries(b1, k1, v1);
    let a = add_sorted(a1, k2, v2);
    let b = add_sorted(b1, k1, v1);
    assert forall|x: (Seq<char>, H)| #[trigger] a.contains(x) <==> b.contains(x) by {
        assert(a.contains(x) <==> (a1.contains(x) || x == (k2, v2)));
        assert(b.contains(x) <==> (b1.contains(x) || x == (k1, v1)));
        assert(a1.contains(x) <==> (hs.contains(x) || x == (k1, v1)));
        assert(b1.contains(x) <==> (hs.contains(x) || x == (k2, v2)));
    }
    lemma_sorted_same_entries(a, b);
}

/// Adds an entry to a list kept sorted by key, replacing any entry with the same key.
pub fn sorted_insert<H>(hs: &mut Vec<(String, H)>, key: String, h: H)
    requires
        keys_sorted(keys_of(keyed(old(hs)@))),
    ensures
        keyed(final(hs)@) == add_sorted(keyed(old(hs)@), key@, h),
        keys_sorted(keys_of(keyed(final(hs)@))),
{
    let ghost old_hs = hs@;
    let ghost keys = keys_of(keyed(old_hs));
    let n = hs.len();
    let mut p: usize = 0;
    assert(keys.skip(0) == keys);
    while p < n && string_lt(&hs[p].0, &key)
        invariant
            n == hs@.len(),
            hs@ == old_hs,
            keys == keys_of(keyed(old_hs)),
            p <= n,
            key_pos(keys, key@) == p + key_pos(keys.skip(p as int), key@),
        decreases n - p,
    {
        assert(keys.skip(p as int)[0] == hs@[p as int].0@);
        assert(keys.skip(p as int).drop_first() == keys.skip(p + 1));
        p = p + 1;
    }
    proof {
        if p < n {
            assert(keys.skip(p as int)[0] == old_hs[p as int].0@);
        }
        assert(key_pos(keys, key@) == p);
        lemma_add_sorted_sorted(keyed(old_hs), key@, h);
    }
    if p < n && string_eq(&hs[p].0, &key) {
        let _ = hs.remove(p);
        hs.insert(p, (key, h));
        proof {
            assert(hs@ == old_hs.update(p as int, (key, h)));
            assert(keyed(hs@) =~= add_sorted(keyed(old_hs), key@, h));
        }
    } else {
        hs.insert(p, (key, h));
        proof {
            assert(keyed(hs@) =~= add_sorted(keyed(old_hs), key@, h));
        }
    }
}

/// Whether a sorted list has an entry for `key`.
pub fn has_key<H>(hs: &Vec<(String, H)>, key: &String) -> (r: bool)
    ensures
        r == lookup_sorted(keyed(hs@), key@) is Some,
{
    proof {
        lemma_lookup_sorted(keyed(hs@), key@);
    }
    let n = hs.len();
    let mut i: usize = 0;
    while i < n
        invariant
            n == hs@.len(),
            i <= n,
            forall|j: int| 0 <= j < i ==> hs@[j].0@ != key@,
        decreases n - i,
    {
        if string_eq(&hs[i].0, key) {
            assert(keyed(hs@)[i as int].0 == key@);
            assert(exists|j: int| 0 <= j < keyed(hs@).len() && keyed(hs@)[j].0 == key@);
            proof {
                lemma_lookup_sorted(keyed(hs@), key@);
            }
            return true;
        }
        i = i + 1;
    }
    proof {
        assert forall|j: int| 0 <= j < keyed(hs@).len() implies keyed(hs@)[j].0 != key@ by {
            assert(keyed(hs@)[j].0 == hs@[j].0@);
        }
    }
    false
}

} // verus!
