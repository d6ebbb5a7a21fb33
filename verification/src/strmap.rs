//! A map from text keys to values that keeps its entries in insertion order.
//!
//! Its view is the sequence of `(key, value)` pairs in the order in which the
//! keys were first inserted; lookups go by the first entry whose key matches.

use vstd::prelude::*;
use crate::text::owned;

verus! {

/// Position of the first entry of `s` whose key is `k`, or `-1`.
pub open spec fn key_pos<V>(s: Seq<(Seq<char>, V)>, k: Seq<char>) -> int
    decreases s.len(),
{
    if s.len() == 0 {
        -1
    } else if s[0].0 == k {
        0
    } else {
        let r = key_pos(s.drop_first(), k);
        if r < 0 {
            -1
        } else {
            r + 1
        }
    }
}

/// `s` has an entry for `k`.
pub open spec fn assoc_has<V>(s: Seq<(Seq<char>, V)>, k: Seq<char>) -> bool {
    key_pos(s, k) >= 0
}

/// The value that `s` holds for `k`.
pub open spec fn assoc_get<V>(s: Seq<(Seq<char>, V)>, k: Seq<char>) -> Option<V> {
    let i = key_pos(s, k);
    if i >= 0 {
        Some(s[i].1)
    } else {
        None
    }
}

/// The value that `s` holds for `k`, or `d` where it holds none.
pub open spec fn assoc_get_or<V>(s: Seq<(Seq<char>, V)>, k: Seq<char>, d: V) -> V {
    match assoc_get(s, k) {
        Some(v) => v,
        None => d,
    }
}

/// `s` with `k` bound to `v`: the entry for `k` is replaced in place, or a
/// new entry is appended.
pub open spec fn assoc_insert<V>(s: Seq<(Seq<char>, V)>, k: Seq<char>, v: V) -> Seq<
    (Seq<char>, V),
> {
    let i = key_pos(s, k);
    if i >= 0 {
        s.update(i, (k, v))
    } else {
        s.push((k, v))
    }
}

/// `s` without its entry for `k`.
pub open spec fn assoc_remove<V>(s: Seq<(Seq<char>, V)>, k: Seq<char>) -> Seq<(Seq<char>, V)> {
    let i = key_pos(s, k);
    if i >= 0 {
        s.remove(i)
    } else {
        s
    }
}

/// No key occurs twice in `s`.
pub open spec fn keys_distinct<V>(s: Seq<(Seq<char>, V)>) -> bool {
    forall|i: int, j: int| 0 <= i < s.len() && 0 <= j < s.len() && i != j ==> s[i].0 != s[j].0
}

/// What `key_pos` finds.
pub broadcast proof fn lemma_key_pos<V>(s: Seq<(Seq<char>, V)>, k: Seq<char>)
    ensures
        -1 <= #[trigger] key_pos(s, k) < s.len(),
        key_pos(s, k) >= 0 ==> s[key_pos(s, k)].0 == k,
        forall|j: int| 0 <= j < s.len() && (key_pos(s, k) < 0 || j < key_pos(s, k)) ==> s[j].0 != k,
    decreases s.len(),
{
    if s.len() > 0 {
        lemma_key_pos(s.drop_first(), k);
        if s[0].0 != k {
            assert forall|j: int|
                0 <= j < s.len() && (key_pos(s, k) < 0 || j < key_pos(s, k)) implies s[j].0
                != k by {
                if j > 0 {
                    assert(s[j] == s.drop_first()[j - 1]);
                }
            }
        }
    }
}

/// `key_pos` is the position of the first matching entry, whatever way that
/// entry is found.
pub proof fn lemma_key_pos_at<V>(s: Seq<(Seq<char>, V)>, k: Seq<char>, i: int)
    requires
        0 <= i < s.len(),
        s[i].0 == k,
        forall|j: int| 0 <= j < i ==> s[j].0 != k,
    ensures
        key_pos(s, k) == i,
{
    broadcast use lemma_key_pos;

    if key_pos(s, k) < 0 || key_pos(s, k) > i {
        assert(s[i].0 != k);
    }
    if key_pos(s, k) < i {
        assert(s[key_pos(s, k)].0 != k);
    }
}

/// The position of `k` in `s.push(e)`.
pub proof fn lemma_key_pos_push<V>(s: Seq<(Seq<char>, V)>, e: (Seq<char>, V), k: Seq<char>)
    ensures
        key_pos(s.push(e), k) == if key_pos(s, k) >= 0 {
            key_pos(s, k)
        } else if e.0 == k {
            s.len() as int
        } else {
            -1
        },
{
    broadcast use lemma_key_pos;

    let t = s.push(e);
    if key_pos(s, k) >= 0 {
        lemma_key_pos_at(t, k, key_pos(s, k));
    } else if e.0 == k {
        lemma_key_pos_at(t, k, s.len() as int);
    } else {
        if key_pos(t, k) >= 0 {
            assert(t[key_pos(t, k)].0 == k);
        }
    }
}

/// The position of `k` after the entry at `i` is given a new value under the
/// same key.
pub proof fn lemma_key_pos_update_same<V>(s: Seq<(Seq<char>, V)>, i: int, v: V, k: Seq<char>)
    requires
        0 <= i < s.len(),
    ensures
        key_pos(s.update(i, (s[i].0, v)), k) == key_pos(s, k),
{
    broadcast use lemma_key_pos;

    let t = s.update(i, (s[i].0, v));
    if key_pos(s, k) >= 0 {
        lemma_key_pos_at(t, k, key_pos(s, k));
    } else if key_pos(t, k) >= 0 {
        assert(t[key_pos(t, k)].0 == k);
        assert(s[key_pos(t, k)].0 == k);
    }
}

/// Reading a key right after binding it gives the new value.
pub proof fn law_get_insert_same<V>(s: Seq<(Seq<char>, V)>, k: Seq<char>, v: V)
    ensures
        assoc_get(assoc_insert(s, k, v), k) == Some(v),
{
    broadcast use lemma_key_pos;

    let i = key_pos(s, k);
    if i >= 0 {
        lemma_key_pos_update_same(s, i, v, k);
    } else {
        lemma_key_pos_push(s, (k, v), k);
    }
}

/// Binding one key leaves every other key's value as it was.
pub proof fn law_get_insert_other<V>(s: Seq<(Seq<char>, V)>, k: Seq<char>, v: V, k2: Seq<char>)
    requires
        k != k2,
    ensures
        assoc_get(assoc_insert(s, k, v), k2) == assoc_get(s, k2),
{
    broadcast use lemma_key_pos;

    let i = key_pos(s, k);
    if i >= 0 {
        lemma_key_pos_update_same(s, i, v, k2);
    } else {
        lemma_key_pos_push(s, (k, v), k2);
    }
}

/// Binding a key that is already bound keeps the order and number of
/// entries; binding a new key appends exactly one entry.
pub proof fn law_insert_len<V>(s: Seq<(Seq<char>, V)>, k: Seq<char>, v: V)
    ensures
        assoc_insert(s, k, v).len() == s.len() + if assoc_has(s, k) {
            0int
        } else {
            1int
        },
{
    broadcast use lemma_key_pos;

}

/// Binding keeps the keys distinct.
pub proof fn law_insert_keeps_distinct<V>(s: Seq<(Seq<char>, V)>, k: Seq<char>, v: V)
    requires
        keys_distinct(s),
    ensures
        keys_distinct(assoc_insert(s, k, v)),
{
    broadcast use lemma_key_pos;

    let t = assoc_insert(s, k, v);
    let i = key_pos(s, k);
    assert forall|a: int, b: int|
        0 <= a < t.len() && 0 <= b < t.len() && a != b implies t[a].0 != t[b].0 by {
        if i < 0 {
            if a == s.len() {
                assert(s[b].0 != k);
            } else if b == s.len() {
                assert(s[a].0 != k);
            }
        }
    }
}

/// After removing a key it is no longer bound, and every other key keeps its
/// value, where keys are distinct.
pub proof fn law_get_remove<V>(s: Seq<(Seq<char>, V)>, k: Seq<char>, k2: Seq<char>)
    requires
        keys_distinct(s),
    ensures
        assoc_get(assoc_remove(s, k), k2) == if k2 == k {
            None
        } else {
            assoc_get(s, k2)
        },
{
    broadcast use lemma_key_pos;

    let i = key_pos(s, k);
    if i >= 0 {
        let t = s.remove(i);
        if key_pos(t, k2) >= 0 {
            let p = key_pos(t, k2);
            let q = if p < i {
                p
            } else {
                p + 1
            };
            assert(t[p] == s[q]);
            if k2 == k {
                assert(s[q].0 == k);
                assert(false);
            } else {
                assert forall|j: int| 0 <= j < q implies s[j].0 != k2 by {
                    if j < i {
                        assert(s[j] == t[j]);
                    } else if j > i {
                        assert(s[j] == t[j - 1]);
                    }
                }
                lemma_key_pos_at(s, k2, q);
            }
        } else if k2 != k && key_pos(s, k2) >= 0 {
            let q = key_pos(s, k2);
            let p = if q < i {
                q
            } else {
                q - 1
            };
            assert(t[p].0 == k2);
        }
    }
}

// ── The map ──────────────────────────────────────────────────────────────────

/// Text-keyed map in insertion order: the keys, and beside them the values.
pub struct StrMap<V> {
    keys: Vec<String>,
    vals: Vec<V>,
}

/// Keys that differ as texts are exactly the keys of a map view without a
/// repeated key.
proof fn lemma_distinct_keys<V>(keys: Seq<String>, vals: Seq<V>)
    requires
        keys.len() == vals.len(),
    ensures
        (forall|i: int, j: int|
            0 <= i < keys.len() && 0 <= j < keys.len() && i != j ==> (#[trigger] keys[i])@ != (
            #[trigger] keys[j])@) <==> keys_distinct(
            Seq::new(vals.len(), |i: int| (keys[i]@, vals[i])),
        ),
{
    let m = Seq::new(vals.len(), |i: int| (keys[i]@, vals[i]));
    if forall|i: int, j: int|
        0 <= i < keys.len() && 0 <= j < keys.len() && i != j ==> (#[trigger] keys[i])@ != (
        #[trigger] keys[j])@ {
        assert forall|i: int, j: int| 0 <= i < m.len() && 0 <= j < m.len() && i != j implies m[i].0
            != m[j].0 by {
            assert(keys[i]@ != keys[j]@);
        }
    }
    if keys_distinct(m) {
        assert forall|i: int, j: int|
            0 <= i < keys.len() && 0 <= j < keys.len() && i != j implies (#[trigger] keys[i])@ != (
            #[trigger] keys[j])@ by {
            assert(m[i].0 != m[j].0);
        }
    }
}

impl<V> View for StrMap<V> {
    type V = Seq<(Seq<char>, V)>;

    closed spec fn view(&self) -> Seq<(Seq<char>, V)> {
        Seq::new(self.vals@.len(), |i: int| (self.keys@[i]@, self.vals@[i]))
    }
}

impl<V> StrMap<V> {
    /// There is one key per value, and no key is bound twice.
    #[verifier::type_invariant]
    closed spec fn keys_unique(self) -> bool {
        &&& self.keys@.len() == self.vals@.len()
        &&& forall|i: int, j: int|
            0 <= i < self.keys@.len() && 0 <= j < self.keys@.len() && i != j ==> (#[trigger] self.keys@[i])@
                != (#[trigger] self.keys@[j])@
    }

    /// An empty map.
    pub fn new() -> (r: Self)
        ensures
            r@ == Seq::<(Seq<char>, V)>::empty(),
            keys_distinct(r@),
    {
        let r = StrMap { keys: Vec::new(), vals: Vec::new() };
        proof {
            assert(r@ =~= Seq::<(Seq<char>, V)>::empty());
        }
        r
    }

    /// Number of entries, one per key: no key is bound twice.
    pub fn len(&self) -> (r: usize)
        ensures
            r == self@.len(),
            keys_distinct(self@),
    {
        proof {
            use_type_invariant(self);
            lemma_distinct_keys(self.keys@, self.vals@);
        }
        self.vals.len()
    }

    /// The map has no entries.
    pub fn is_empty(&self) -> (r: bool)
        ensures
            r == (self@.len() == 0),
    {
        self.vals.len() == 0
    }

    /// Position of the entry for `k`.
    pub fn find(&self, k: &str) -> (r: Option<usize>)
        ensures
            match r {
                Some(i) => i == key_pos(self@, k@) && i < self@.len(),
                None => key_pos(self@, k@) < 0,
            },
    {
        proof {
            use_type_invariant(self);
            lemma_key_pos(self@, k@);
        }
        let key = owned(k);
        let mut i: usize = 0;
        while i < self.keys.len()
            invariant
                0 <= i <= self@.len(),
                self@.len() == self.keys@.len(),
                key@ == k@,
                forall|j: int| 0 <= j < i ==> self@[j].0 != k@,
            decreases self@.len() - i,
        {
            if self.keys[i] == key {
                proof {
                    assert(self@[i as int].0 == k@);
                    lemma_key_pos_at(self@, k@, i as int);
                }
                return Some(i);
            }
            proof {
                assert(self@[i as int].0 != k@);
            }
            i = i + 1;
        }
        proof {
            if key_pos(self@, k@) >= 0 {
                assert(self@[key_pos(self@, k@)].0 == k@);
            }
        }
        None
    }

    /// The map holds an entry for `k`.
    pub fn contains_key(&self, k: &str) -> (r: bool)
        ensures
            r == assoc_has(self@, k@),
    {
        self.find(k).is_some()
    }

    /// The value held for `k`.
    pub fn get(&self, k: &str) -> (r: Option<&V>)
        ensures
            match r {
                Some(v) => assoc_get(self@, k@) == Some(*v),
                None => assoc_get(self@, k@) is None,
            },
    {
        match self.find(k) {
            Some(i) => Some(&self.vals[i]),
            None => None,
        }
    }

    /// Key of the entry at position `i`.
    pub fn key_at(&self, i: usize) -> (r: &String)
        requires
            i < self@.len(),
        ensures
            r@ == self@[i as int].0,
    {
        proof {
            use_type_invariant(self);
        }
        &self.keys[i]
    }

    /// Value of the entry at position `i`.
    pub fn value_at(&self, i: usize) -> (r: &V)
        requires
            i < self@.len(),
        ensures
            *r == self@[i as int].1,
    {
        &self.vals[i]
    }

    /// Mutable access to the value of the entry at position `i`; the key stays.
    pub fn value_mut_at(&mut self, i: usize) -> (r: &mut V)
        requires
            i < old(self)@.len(),
        ensures
            *r == old(self)@[i as int].1,
            final(self)@ == old(self)@.update(i as int, (old(self)@[i as int].0, *final(r))),
    {
        proof {
            use_type_invariant(&*self);
        }
        let ghost old_vals = self.vals@;
        let ghost old_view = self@;
        let r = &mut self.vals[i];
        proof {
            assert(after_borrow(self).vals@ == old_vals.update(i as int, *final(r)));
            assert(after_borrow(self)@ =~= old_view.update(i as int, (old_view[i as int].0, *final(r))));
        }
        r
    }

    /// Binds `k` to `v`, in place where `k` is already bound, else at the end.
    pub fn insert(&mut self, k: String, v: V)
        ensures
            final(self)@ == assoc_insert(old(self)@, k@, v),
            keys_distinct(final(self)@),
    {
        proof {
            use_type_invariant(&*self);
            lemma_distinct_keys(self.keys@, self.vals@);
            law_insert_keeps_distinct(old(self)@, k@, v);
        }
        let pos = self.find(k.as_str());
        let ghost kv = k@;
        let mut m = StrMap::new();
        std::mem::swap(&mut m, self);
        let StrMap { mut keys, mut vals } = m;
        proof {
            assert(keys@ == old(self).keys@ && vals@ == old(self).vals@);
        }
        match pos {
            Some(i) => {
                let ghost v0 = vals@;
                let _ = vals.remove(i);
                vals.insert(i, v);
                proof {
                    assert(vals@ =~= v0.update(i as int, v));
                    lemma_key_pos(old(self)@, kv);
                    let n = StrMap { keys: keys, vals: vals };
                    assert(n@ =~= old(self)@.update(i as int, (kv, v)));
                }
            },
            None => {
                keys.push(k);
                vals.push(v);
                proof {
                    let n = StrMap { keys: keys, vals: vals };
                    assert(n@ =~= old(self)@.push((kv, v)));
                }
            },
        }
        proof {
            lemma_distinct_keys(keys@, vals@);
        }
        *self = StrMap { keys, vals };
    }

    /// Removes the entry for `k`, giving back its value.
    pub fn remove(&mut self, k: &str) -> (r: Option<V>)
        ensures
            final(self)@ == assoc_remove(old(self)@, k@),
            r == assoc_get(old(self)@, k@),
            keys_distinct(final(self)@),
    {
        proof {
            use_type_invariant(&*self);
            lemma_distinct_keys(self.keys@, self.vals@);
        }
        match self.find(k) {
            Some(i) => {
                let mut m = StrMap::new();
                std::mem::swap(&mut m, self);
                let StrMap { mut keys, mut vals } = m;
                proof {
                    assert(keys@ == old(self).keys@ && vals@ == old(self).vals@);
                }
                let _ = keys.remove(i);
                let v = vals.remove(i);
                proof {
                    let n = StrMap { keys: keys, vals: vals };
                    assert(n@ =~= old(self)@.remove(i as int));
                    assert forall|a: int, b: int|
                        0 <= a < n@.len() && 0 <= b < n@.len() && a != b implies n@[a].0 != n@[b].0 by {
                        let a2 = if a < i { a } else { a + 1 };
                        let b2 = if b < i { b } else { b + 1 };
                        assert(n@[a] == old(self)@[a2]);
                        assert(n@[b] == old(self)@[b2]);
                    }
                    lemma_distinct_keys(keys@, vals@);
                }
                *self = StrMap { keys, vals };
                Some(v)
            },
            None => None,
        }
    }
}

} // verus!

verus! {

/// `s` with `g` applied to every value; keys stay.
pub open spec fn map_vals<V, W>(s: Seq<(Seq<char>, V)>, g: spec_fn(V) -> W) -> Seq<(Seq<char>, W)> {
    s.map_values(|e: (Seq<char>, V)| (e.0, g(e.1)))
}

pub proof fn lemma_map_vals_key_pos<V, W>(s: Seq<(Seq<char>, V)>, g: spec_fn(V) -> W, k: Seq<char>)
    ensures
        key_pos(map_vals(s, g), k) == key_pos(s, k),
{
    lemma_key_pos(s, k);
    let t = map_vals(s, g);
    lemma_key_pos(t, k);
    if key_pos(s, k) >= 0 {
        assert forall|j: int| 0 <= j < key_pos(s, k) implies t[j].0 != k by {
            assert(t[j].0 == s[j].0);
        }
        assert(t[key_pos(s, k)].0 == k);
        lemma_key_pos_at(t, k, key_pos(s, k));
    } else if key_pos(t, k) >= 0 {
        assert(s[key_pos(t, k)].0 == t[key_pos(t, k)].0);
    }
}

/// Reading through the value map.
pub proof fn lemma_map_vals_get<V, W>(s: Seq<(Seq<char>, V)>, g: spec_fn(V) -> W, k: Seq<char>)
    ensures
        assoc_get(map_vals(s, g), k) == match assoc_get(s, k) {
            Some(v) => Some(g(v)),
            None => None,
        },
{
    lemma_map_vals_key_pos(s, g, k);
    lemma_key_pos(s, k);
}

/// Binding commutes with the value map.
pub proof fn lemma_map_vals_insert<V, W>(
    s: Seq<(Seq<char>, V)>,
    g: spec_fn(V) -> W,
    k: Seq<char>,
    v: V,
)
    ensures
        map_vals(assoc_insert(s, k, v), g) == assoc_insert(map_vals(s, g), k, g(v)),
{
    lemma_map_vals_key_pos(s, g, k);
    lemma_key_pos(s, k);
    assert(map_vals(assoc_insert(s, k, v), g) =~= assoc_insert(map_vals(s, g), k, g(v)));
}

} // verus!
