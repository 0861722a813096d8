//! A map from strings to values that keeps its keys in ascending order.
//!
//! It stands where the analyses keep tallies per author, per path, per date
//! or per language. Because the keys stay sorted, walking the entries by
//! index visits them in key order, as walking a `BTreeMap` does.
use vstd::prelude::*;

use crate::order::{compare_str, lemma_lt_asymmetric, lemma_lt_irreflexive, lemma_lt_total, lemma_lt_transitive, str_lt};
use crate::text::owned;

verus! {

/// Keys in strictly ascending order (so no key occurs twice).
pub open spec fn sorted_keys<V>(s: Seq<(Seq<char>, V)>) -> bool {
    forall|i: int, j: int| 0 <= i < j < s.len() ==> str_lt(#[trigger] s[i].0, #[trigger] s[j].0)
}

/// The value stored under `k`, if any.
pub open spec fn lookup<V>(s: Seq<(Seq<char>, V)>, k: Seq<char>) -> Option<V>
    decreases s.len(),
{
    if s.len() == 0 {
        None
    } else if s.last().0 == k {
        Some(s.last().1)
    } else {
        lookup(s.drop_last(), k)
    }
}

/// The keys of an entry sequence, as a set.
pub open spec fn key_set<V>(s: Seq<(Seq<char>, V)>) -> Set<Seq<char>> {
    Set::new(|k: Seq<char>| lookup(s, k) is Some)
}

/// Where `k` goes in a sorted entry sequence: the number of keys before it.
pub open spec fn insert_pos<V>(s: Seq<(Seq<char>, V)>, k: Seq<char>) -> int
    decreases s.len(),
{
    if s.len() == 0 {
        0
    } else if str_lt(s.last().0, k) {
        s.len() as int
    } else {
        insert_pos(s.drop_last(), k)
    }
}

/// `lookup` finds exactly the entries whose key matches.
pub proof fn lemma_lookup_index<V>(s: Seq<(Seq<char>, V)>, k: Seq<char>)
    requires
        sorted_keys(s),
    ensures
        lookup(s, k) is Some <==> exists|i: int| 0 <= i < s.len() && #[trigger] s[i].0 == k,
        forall|i: int| 0 <= i < s.len() && #[trigger] s[i].0 == k ==> lookup(s, k) == Some(s[i].1),
    decreases s.len(),
{
    if s.len() > 0 {
        let t = s.drop_last();
        assert forall|i: int, j: int| 0 <= i < j < t.len() implies str_lt(#[trigger] t[i].0, #[trigger] t[j].0) by {
            assert(t[i] == s[i] && t[j] == s[j]);
        }
        lemma_lookup_index(t, k);
        if s.last().0 == k {
            assert(s[s.len() - 1].0 == k);
            assert forall|i: int| 0 <= i < s.len() && #[trigger] s[i].0 == k implies i == s.len() - 1 by {
                if i < s.len() - 1 {
                    assert(str_lt(s[i].0, s[s.len() - 1].0));
                    lemma_lt_irreflexive(k);
                }
            }
        } else {
            assert forall|i: int| 0 <= i < s.len() && #[trigger] s[i].0 == k implies 0 <= i < t.len() && t[i].0 == k by {
                assert(t.len() == s.len() - 1);
                if i == s.len() - 1 {
                    assert(s[i] == s.last());
                } else {
                    assert(t[i] == s[i]);
                }
            }
            if exists|i: int| 0 <= i < t.len() && #[trigger] t[i].0 == k {
                let i = choose|i: int| 0 <= i < t.len() && #[trigger] t[i].0 == k;
                assert(s[i] == t[i]);
            }
        }
    }
}

/// After changing the value at an index, only its key looks up differently.
pub proof fn lemma_lookup_update<V>(s: Seq<(Seq<char>, V)>, i: int, v: V, k: Seq<char>)
    requires
        sorted_keys(s),
        0 <= i < s.len(),
    ensures
        sorted_keys(s.update(i, (s[i].0, v))),
        lookup(s.update(i, (s[i].0, v)), k) == if k == s[i].0 { Some(v) } else { lookup(s, k) },
{
    let u = s.update(i, (s[i].0, v));
    assert forall|a: int, b: int| 0 <= a < b < u.len() implies str_lt(#[trigger] u[a].0, #[trigger] u[b].0) by {
        assert(u[a].0 == s[a].0 && u[b].0 == s[b].0);
    }
    lemma_lookup_index(s, k);
    lemma_lookup_index(u, k);
    assert(u[i].0 == s[i].0);
    if k != s[i].0 {
        if exists|j: int| 0 <= j < u.len() && #[trigger] u[j].0 == k {
            let j = choose|j: int| 0 <= j < u.len() && #[trigger] u[j].0 == k;
            assert(s[j] == u[j]);
        }
        if exists|j: int| 0 <= j < s.len() && #[trigger] s[j].0 == k {
            let j = choose|j: int| 0 <= j < s.len() && #[trigger] s[j].0 == k;
            assert(s[j] == u[j]);
        }
    }
}

/// Inserting a new key at its sorted position keeps the keys sorted and
/// changes only the lookup of that key.
pub proof fn lemma_lookup_insert<V>(s: Seq<(Seq<char>, V)>, key: Seq<char>, v: V, k: Seq<char>)
    requires
        sorted_keys(s),
        lookup(s, key) is None,
    ensures
        0 <= insert_pos(s, key) <= s.len(),
        sorted_keys(s.insert(insert_pos(s, key), (key, v))),
        lookup(s.insert(insert_pos(s, key), (key, v)), k) == if k == key { Some(v) } else { lookup(s, k) },
{
    lemma_insert_pos(s, key);
    let p = insert_pos(s, key);
    let u = s.insert(p, (key, v));
    lemma_lookup_index(s, key);
    assert forall|a: int, b: int| 0 <= a < b < u.len() implies str_lt(#[trigger] u[a].0, #[trigger] u[b].0) by {
        if a < p && b < p {
            assert(u[a] == s[a] && u[b] == s[b]);
        } else if a < p && b == p {
            assert(u[a] == s[a]);
        } else if a < p {
            assert(u[a] == s[a] && u[b] == s[b - 1]);
            if a < b - 1 {
                assert(str_lt(s[a].0, s[b - 1].0));
            }
        } else if a == p {
            assert(u[b] == s[b - 1]);
            if s[b - 1].0 != key {
                lemma_lt_total(s[b - 1].0, key);
            }
        } else {
            assert(u[a] == s[a - 1] && u[b] == s[b - 1]);
        }
    }
    lemma_lookup_index(s, k);
    lemma_lookup_index(u, k);
    assert(u[p] == (key, v));
    assert(u[p].0 == key);
    if k != key {
        if exists|j: int| 0 <= j < u.len() && #[trigger] u[j].0 == k {
            let j = choose|j: int| 0 <= j < u.len() && #[trigger] u[j].0 == k;
            if j < p {
                assert(s[j] == u[j]);
            } else {
                assert(s[j - 1] == u[j]);
            }
        }
        if exists|j: int| 0 <= j < s.len() && #[trigger] s[j].0 == k {
            let j = choose|j: int| 0 <= j < s.len() && #[trigger] s[j].0 == k;
            if j < p {
                assert(s[j] == u[j]);
            } else {
                assert(s[j] == u[j + 1]);
            }
        }
    }
}

/// Keys before the insertion position are smaller than `key`; keys from it
/// on are not.
proof fn lemma_insert_pos<V>(s: Seq<(Seq<char>, V)>, key: Seq<char>)
    requires
        sorted_keys(s),
    ensures
        0 <= insert_pos(s, key) <= s.len(),
        forall|i: int| 0 <= i < insert_pos(s, key) ==> str_lt(#[trigger] s[i].0, key),
        forall|i: int| insert_pos(s, key) <= i < s.len() ==> !str_lt(#[trigger] s[i].0, key),
    decreases s.len(),
{
    if s.len() > 0 {
        let t = s.drop_last();
        assert forall|i: int, j: int| 0 <= i < j < t.len() implies str_lt(#[trigger] t[i].0, #[trigger] t[j].0) by {
            assert(t[i] == s[i] && t[j] == s[j]);
        }
        lemma_insert_pos(t, key);
        if str_lt(s.last().0, key) {
            assert forall|i: int| 0 <= i < s.len() implies str_lt(#[trigger] s[i].0, key) by {
                if i < s.len() - 1 {
                    assert(str_lt(s[i].0, s[s.len() - 1].0));
                    lemma_lt_transitive(s[i].0, s[s.len() - 1].0, key);
                }
            }
        } else {
            assert forall|i: int| insert_pos(s, key) <= i < s.len() implies !str_lt(#[trigger] s[i].0, key) by {
                if i < s.len() - 1 {
                    assert(t[i] == s[i]);
                }
            }
            assert forall|i: int| 0 <= i < insert_pos(s, key) implies str_lt(#[trigger] s[i].0, key) by {
                assert(t[i] == s[i]);
            }
        }
    }
}

/// A sorted entry sequence has exactly one entry per key.
pub proof fn lemma_key_set_len<V>(s: Seq<(Seq<char>, V)>)
    requires
        sorted_keys(s),
    ensures
        key_set(s).finite(),
        key_set(s).len() == s.len(),
    decreases s.len(),
{
    if s.len() == 0 {
        assert(key_set(s) =~= Set::<Seq<char>>::empty());
    } else {
        let t = s.drop_last();
        let k = s.last().0;
        assert forall|i: int, j: int| 0 <= i < j < t.len() implies str_lt(#[trigger] t[i].0, #[trigger] t[j].0) by {
            assert(t[i] == s[i] && t[j] == s[j]);
        }
        lemma_key_set_len(t);
        assert(key_set(s) =~= key_set(t).insert(k));
        lemma_lookup_index(t, k);
        if lookup(t, k) is Some {
            let i = choose|i: int| 0 <= i < t.len() && #[trigger] t[i].0 == k;
            assert(t[i] == s[i]);
            assert(str_lt(s[i].0, s[s.len() - 1].0));
            lemma_lt_irreflexive(k);
        }
        assert(!key_set(t).contains(k));
        vstd::set::axiom_set_insert_len(key_set(t), k);
    }
}

/// The sum of the values of an entry sequence.
pub open spec fn value_sum(s: Seq<(Seq<char>, u64)>) -> int
    decreases s.len(),
{
    if s.len() == 0 {
        0
    } else {
        value_sum(s.drop_last()) + s.last().1
    }
}

/// Sums split over concatenation.
pub proof fn lemma_value_sum_concat(a: Seq<(Seq<char>, u64)>, b: Seq<(Seq<char>, u64)>)
    ensures
        value_sum(a + b) == value_sum(a) + value_sum(b),
    decreases b.len(),
{
    if b.len() == 0 {
        assert(a + b =~= a);
    } else {
        lemma_value_sum_concat(a, b.drop_last());
        assert((a + b).drop_last() =~= a + b.drop_last());
        assert((a + b).last() == b.last());
    }
}

/// Changing one value changes the sum by the difference.
pub proof fn lemma_value_sum_update(s: Seq<(Seq<char>, u64)>, i: int, v: u64)
    requires
        0 <= i < s.len(),
    ensures
        value_sum(s.update(i, (s[i].0, v))) == value_sum(s) - s[i].1 + v,
{
    let u = s.update(i, (s[i].0, v));
    assert(s =~= s.take(i) + seq![s[i]] + s.skip(i + 1));
    assert(u =~= s.take(i) + seq![(s[i].0, v)] + s.skip(i + 1));
    lemma_value_sum_concat(s.take(i) + seq![s[i]], s.skip(i + 1));
    lemma_value_sum_concat(s.take(i), seq![s[i]]);
    lemma_value_sum_concat(s.take(i) + seq![(s[i].0, v)], s.skip(i + 1));
    lemma_value_sum_concat(s.take(i), seq![(s[i].0, v)]);
    assert(seq![s[i]].drop_last() =~= Seq::<(Seq<char>, u64)>::empty());
    assert(seq![(s[i].0, v)].drop_last() =~= Seq::<(Seq<char>, u64)>::empty());
}

/// Inserting an entry adds its value to the sum.
pub proof fn lemma_value_sum_insert(s: Seq<(Seq<char>, u64)>, i: int, e: (Seq<char>, u64))
    requires
        0 <= i <= s.len(),
    ensures
        value_sum(s.insert(i, e)) == value_sum(s) + e.1,
{
    let a = s.take(i);
    let b = s.skip(i);
    let one = seq![e];
    assert(s =~= a + b);
    assert(s.insert(i, e) =~= (a + one) + b);
    lemma_value_sum_concat(a, b);
    lemma_value_sum_concat(a + one, b);
    lemma_value_sum_concat(a, one);
    assert(one.drop_last() =~= Seq::<(Seq<char>, u64)>::empty());
    assert(value_sum(Seq::<(Seq<char>, u64)>::empty()) == 0);
    assert(one.last() == e);
    assert(value_sum(one) == e.1);
    assert(value_sum(s) == value_sum(a) + value_sum(b));
    assert(value_sum(s.insert(i, e)) == value_sum(a + one) + value_sum(b));
}

/// A map from strings to values with its keys kept in ascending order.
#[derive(Debug)]
pub struct StrMap<V> {
    keys: Vec<String>,
    values: Vec<V>,
}

impl<V> View for StrMap<V> {
    type V = Seq<(Seq<char>, V)>;

    closed spec fn view(&self) -> Seq<(Seq<char>, V)> {
        Seq::new(self.keys@.len(), |i: int| (self.keys@[i]@, self.values@[i]))
    }
}

impl<V> StrMap<V> {
    #[verifier::type_invariant]
    closed spec fn inv(self) -> bool {
        &&& self.keys@.len() == self.values@.len()
        &&& sorted_keys(self@)
    }

    /// An empty map.
    pub fn new() -> (m: Self)
        ensures
            m@ == Seq::<(Seq<char>, V)>::empty(),
    {
        let m = StrMap { keys: Vec::new(), values: Vec::new() };
        assert(m@ =~= Seq::<(Seq<char>, V)>::empty());
        m
    }

    /// The number of entries.
    pub fn len(&self) -> (n: usize)
        ensures
            n == self@.len(),
            sorted_keys(self@),
    {
        proof { use_type_invariant(self); }
        self.keys.len()
    }

    /// Whether the map has no entries.
    pub fn is_empty(&self) -> (b: bool)
        ensures
            b == (self@.len() == 0),
    {
        self.len() == 0
    }

    /// The key of the entry at index `i`.
    pub fn key_at(&self, i: usize) -> (k: &String)
        requires
            i < self@.len(),
        ensures
            k@ == self@[i as int].0,
    {
        proof { use_type_invariant(self); }
        &self.keys[i]
    }

    /// The value of the entry at index `i`.
    pub fn value_at(&self, i: usize) -> (v: &V)
        requires
            i < self@.len(),
        ensures
            *v == self@[i as int].1,
    {
        proof { use_type_invariant(self); }
        &self.values[i]
    }

    /// The index of the entry with key `key`, if there is one.
    pub fn find(&self, key: &str) -> (r: Option<usize>)
        ensures
            match r {
                Some(i) => i < self@.len() && self@[i as int].0 == key@,
                None => lookup(self@, key@) is None,
            },
            lookup(self@, key@) is Some <==> r is Some,
    {
        proof {
            use_type_invariant(self);
            lemma_lookup_index(self@, key@);
        }
        let mut i: usize = 0;
        while i < self.keys.len()
            invariant
                i <= self.keys@.len(),
                self.keys@.len() == self.values@.len(),
                forall|j: int| 0 <= j < i ==> #[trigger] self@[j].0 != key@,
            decreases self.keys@.len() - i,
        {
            if compare_str(self.keys[i].as_str(), key) == 0 {
                assert(self@[i as int].0 == key@);
                proof {
                    use_type_invariant(self);
                    lemma_lookup_index(self@, key@);
                }
                return Some(i);
            }
            i = i + 1;
        }
        None
    }

    /// Whether some entry has key `key`.
    pub fn contains_key(&self, key: &str) -> (b: bool)
        ensures
            b == lookup(self@, key@) is Some,
    {
        self.find(key).is_some()
    }

    /// The value stored under `key`, if any.
    pub fn get(&self, key: &str) -> (r: Option<&V>)
        ensures
            match r {
                Some(v) => lookup(self@, key@) == Some(*v),
                None => lookup(self@, key@) is None,
            },
    {
        match self.find(key) {
            Some(i) => {
                proof {
                    use_type_invariant(self);
                    lemma_lookup_index(self@, key@);
                }
                Some(&self.values[i])
            },
            None => None,
        }
    }

    /// The index of the entry for `key`, which is first inserted with value
    /// `default` when the map has none.
    pub fn entry_index(&mut self, key: &str, default: V) -> (i: usize)
        ensures
            i < final(self)@.len(),
            final(self)@[i as int].0 == key@,
            lookup(old(self)@, key@) is Some ==> final(self)@ == old(self)@,
            lookup(old(self)@, key@) is None ==> final(self)@ == old(self)@.insert(insert_pos(old(self)@, key@), (key@, default)),
            lookup(final(self)@, key@) == Some(final(self)@[i as int].1),
            lookup(old(self)@, key@) is None ==> final(self)@[i as int].1 == default,
            lookup(old(self)@, key@) is None ==> 0 <= insert_pos(old(self)@, key@) <= old(self)@.len(),
            lookup(old(self)@, key@) is Some ==> lookup(old(self)@, key@) == Some(final(self)@[i as int].1),
            forall|k: Seq<char>| k != key@ ==> #[trigger] lookup(final(self)@, k) == lookup(old(self)@, k),
    {
        proof {
            use_type_invariant(&*self);
            lemma_lookup_index(self@, key@);
        }
        match self.find(key) {
            Some(i) => {
                proof { lemma_lookup_index(self@, key@); }
                i
            },
            None => {
                let ghost s = self@;
                proof {
                    lemma_insert_pos(s, key@);
                    assert forall|k: Seq<char>| true implies #[trigger] lookup(s.insert(insert_pos(s, key@), (key@, default)), k) == if k == key@ { Some(default) } else { lookup(s, k) } by {
                        lemma_lookup_insert(s, key@, default, k);
                    }
                }
                let mut p: usize = self.keys.len();
                while p > 0 && compare_str(self.keys[p - 1].as_str(), key) == 1
                    invariant
                        p <= self.keys@.len(),
                        self.keys@.len() == self.values@.len(),
                        self@ == s,
                        sorted_keys(s),
                        lookup(s, key@) is None,
                        insert_pos(s, key@) <= p,
                        forall|j: int| 0 <= j < insert_pos(s, key@) ==> str_lt(#[trigger] s[j].0, key@),
                    decreases p,
                {
                    proof {
                        assert(s[p - 1].0 == self.keys@[p - 1]@);
                        lemma_lt_asymmetric(s[p - 1].0, key@);
                    }
                    p = p - 1;
                }
                proof {
                    lemma_lookup_index(s, key@);
                    if p > 0 {
                        assert(s[p - 1].0 != key@);
                        lemma_lt_total(s[p - 1].0, key@);
                        lemma_lt_asymmetric(s[p - 1].0, key@);
                        assert(str_lt(s[p - 1].0, key@));
                        assert(p <= insert_pos(s, key@));
                    } else {
                        assert(p <= insert_pos(s, key@));
                    }
                }
                proof { lemma_lookup_insert(s, key@, default, key@); }
                let mut taken = StrMap::new();
                std::mem::swap(self, &mut taken);
                let StrMap { mut keys, mut values } = taken;
                keys.insert(p, owned(key));
                values.insert(p, default);
                proof {
                    let u = Seq::new(keys@.len(), |j: int| (keys@[j]@, values@[j]));
                    assert(u =~= s.insert(p as int, (key@, default)));
                }
                *self = StrMap { keys, values };
                proof {
                    assert(self@ =~= s.insert(p as int, (key@, default)));
                    lemma_lookup_insert(s, key@, default, key@);
                }
                p
            },
        }
    }

    /// Takes out the value of the entry at index `i`, leaving `v` in its place.
    pub fn replace_value(&mut self, i: usize, v: V) -> (old_v: V)
        requires
            i < old(self)@.len(),
        ensures
            old_v == old(self)@[i as int].1,
            final(self)@ == old(self)@.update(i as int, (old(self)@[i as int].0, v)),
            forall|k: Seq<char>| #[trigger] lookup(final(self)@, k) == if k == old(self)@[i as int].0 { Some(v) } else { lookup(old(self)@, k) },
    {
        proof { use_type_invariant(&*self); }
        let ghost s = self@;
        proof {
            assert forall|k: Seq<char>| true implies #[trigger] lookup(s.update(i as int, (s[i as int].0, v)), k) == if k == s[i as int].0 { Some(v) } else { lookup(s, k) } by {
                lemma_lookup_update(s, i as int, v, k);
            }
            lemma_lookup_update(s, i as int, v, s[i as int].0);
        }
        let mut taken = StrMap::new();
        std::mem::swap(self, &mut taken);
        let StrMap { keys, mut values } = taken;
        let old_v = values.remove(i);
        values.insert(i, v);
        proof {
            let u = Seq::new(keys@.len(), |j: int| (keys@[j]@, values@[j]));
            assert(u =~= s.update(i as int, (s[i as int].0, v)));
        }
        *self = StrMap { keys, values };
        old_v
    }

    /// Replaces the value of the entry at index `i`.
    pub fn set_value(&mut self, i: usize, v: V)
        requires
            i < old(self)@.len(),
        ensures
            final(self)@ == old(self)@.update(i as int, (old(self)@[i as int].0, v)),
            forall|k: Seq<char>| #[trigger] lookup(final(self)@, k) == if k == old(self)@[i as int].0 { Some(v) } else { lookup(old(self)@, k) },
    {
        proof { use_type_invariant(&*self); }
        let ghost s = self@;
        proof {
            assert forall|k: Seq<char>| true implies #[trigger] lookup(s.update(i as int, (s[i as int].0, v)), k) == if k == s[i as int].0 { Some(v) } else { lookup(s, k) } by {
                lemma_lookup_update(s, i as int, v, k);
            }
            lemma_lookup_update(s, i as int, v, s[i as int].0);
        }
        let mut taken = StrMap::new();
        std::mem::swap(self, &mut taken);
        let StrMap { keys, mut values } = taken;
        values.set(i, v);
        proof {
            let u = Seq::new(keys@.len(), |j: int| (keys@[j]@, values@[j]));
            assert(u =~= s.update(i as int, (s[i as int].0, v)));
        }
        *self = StrMap { keys, values };
    }
}

} // verus!
