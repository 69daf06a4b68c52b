//! A small map from `u64` keys to values, stored as a vector of pairs with
//! pairwise-distinct keys.
//!
//! The call graph needs maps it can also walk and rewrite entry by entry
//! (compacting adjacency lists after a file removal), so the representation
//! is an ordered vector of `(key, value)` pairs, abstracted both as that
//! sequence (`kv`) and as a `Map` (the view).

use vstd::prelude::*;

verus! {

/// The map denoted by a sequence of key-value pairs, later pairs winning.
pub open spec fn seq_key_map<V>(s: Seq<(u64, V)>) -> Map<u64, V>
    decreases s.len(),
{
    if s.len() == 0 {
        Map::empty()
    } else {
        seq_key_map(s.drop_last()).insert(s.last().0, s.last().1)
    }
}

/// Whether the keys of a pair sequence are pairwise distinct.
pub open spec fn unique_keys<V>(s: Seq<(u64, V)>) -> bool {
    forall|i: int, j: int| 0 <= i < j < s.len() ==> s[i].0 != s[j].0
}

pub proof fn lemma_seq_key_map_contains<V>(s: Seq<(u64, V)>, k: u64)
    ensures
        seq_key_map(s).contains_key(k) <==> exists|i: int| 0 <= i < s.len() && s[i].0 == k,
    decreases s.len(),
{
    if s.len() > 0 {
        lemma_seq_key_map_contains(s.drop_last(), k);
        if s.last().0 == k {
            assert(s[s.len() - 1].0 == k);
        } else if seq_key_map(s).contains_key(k) {
            let i = choose|i: int| 0 <= i < s.drop_last().len() && s.drop_last()[i].0 == k;
            assert(s[i].0 == k);
        } else if exists|i: int| 0 <= i < s.len() && s[i].0 == k {
            let i = choose|i: int| 0 <= i < s.len() && s[i].0 == k;
            assert(s.drop_last()[i].0 == k);
        }
    }
}

pub proof fn lemma_seq_key_map_index<V>(s: Seq<(u64, V)>, i: int)
    requires
        unique_keys(s),
        0 <= i < s.len(),
    ensures
        seq_key_map(s).contains_key(s[i].0),
        seq_key_map(s)[s[i].0] == s[i].1,
    decreases s.len(),
{
    if i < s.len() - 1 {
        assert(unique_keys(s.drop_last()));
        assert(s.drop_last()[i] == s[i]);
        lemma_seq_key_map_index(s.drop_last(), i);
        assert(s.last().0 != s[i].0);
    }
}

pub proof fn lemma_seq_key_map_push<V>(s: Seq<(u64, V)>, p: (u64, V))
    ensures
        seq_key_map(s.push(p)) == seq_key_map(s).insert(p.0, p.1),
{
    assert(s.push(p).drop_last() =~= s);
    assert(s.push(p).last() == p);
}

pub proof fn lemma_seq_key_map_update<V>(s: Seq<(u64, V)>, i: int, v: V)
    requires
        unique_keys(s),
        0 <= i < s.len(),
    ensures
        seq_key_map(s.update(i, (s[i].0, v))) == seq_key_map(s).insert(s[i].0, v),
        unique_keys(s.update(i, (s[i].0, v))),
    decreases s.len(),
{
    let t = s.update(i, (s[i].0, v));
    assert(unique_keys(t));
    if i == s.len() - 1 {
        assert(t.drop_last() =~= s.drop_last());
        assert(t.last() == (s[i].0, v));
        assert(seq_key_map(t) =~= seq_key_map(s).insert(s[i].0, v));
    } else {
        assert(t.drop_last() =~= s.drop_last().update(i, (s[i].0, v)));
        assert(unique_keys(s.drop_last()));
        assert(s.drop_last()[i] == s[i]);
        lemma_seq_key_map_update(s.drop_last(), i, v);
        assert(t.last() == s.last());
        assert(s.last().0 != s[i].0);
        assert(seq_key_map(t) =~= seq_key_map(s).insert(s[i].0, v));
    }
}

pub proof fn lemma_seq_key_map_remove<V>(s: Seq<(u64, V)>, i: int)
    requires
        unique_keys(s),
        0 <= i < s.len(),
    ensures
        seq_key_map(s.remove(i)) == seq_key_map(s).remove(s[i].0),
        unique_keys(s.remove(i)),
    decreases s.len(),
{
    let t = s.remove(i);
    assert forall|a: int, b: int| 0 <= a < b < t.len() implies t[a].0 != t[b].0 by {
        if b < i {
            assert(t[a] == s[a] && t[b] == s[b]);
        } else if a < i {
            assert(t[a] == s[a] && t[b] == s[b + 1]);
        } else {
            assert(t[a] == s[a + 1] && t[b] == s[b + 1]);
        }
    }
    lemma_seq_key_map_contains(s.drop_last(), s[i].0);
    if i == s.len() - 1 {
        assert(t =~= s.drop_last());
        assert(!seq_key_map(s.drop_last()).contains_key(s[i].0));
        assert(seq_key_map(t) =~= seq_key_map(s).remove(s[i].0));
    } else {
        assert(t.drop_last() =~= s.drop_last().remove(i));
        assert(unique_keys(s.drop_last()));
        assert(s.drop_last()[i] == s[i]);
        lemma_seq_key_map_remove(s.drop_last(), i);
        assert(t.last() == s.last());
        assert(s.last().0 != s[i].0);
        assert(seq_key_map(t) =~= seq_key_map(s).remove(s[i].0));
    }
}

pub proof fn lemma_seq_key_map_dom_len<V>(s: Seq<(u64, V)>)
    requires
        unique_keys(s),
    ensures
        seq_key_map(s).dom().finite(),
        seq_key_map(s).dom().len() == s.len(),
    decreases s.len(),
{
    if s.len() > 0 {
        assert(unique_keys(s.drop_last()));
        lemma_seq_key_map_dom_len(s.drop_last());
        lemma_seq_key_map_contains(s.drop_last(), s.last().0);
        assert(!seq_key_map(s.drop_last()).contains_key(s.last().0));
        assert(seq_key_map(s).dom() =~= seq_key_map(s.drop_last()).dom().insert(s.last().0));
    }
}

/// A map from `u64` keys to values whose entries can also be visited in
/// insertion order.
pub struct KeyMap<V> {
    entries: Vec<(u64, V)>,
}

impl<V> View for KeyMap<V> {
    type V = Map<u64, V>;

    closed spec fn view(&self) -> Map<u64, V> {
        seq_key_map(self.entries@)
    }
}

impl<V> KeyMap<V> {
    /// The entries in insertion order; the keys are pairwise distinct.
    pub closed spec fn kv(self) -> Seq<(u64, V)> {
        self.entries@
    }

    /// Well-formed: no key occurs twice.
    pub open spec fn wf(self) -> bool {
        unique_keys(self.kv())
    }

    /// One entry, as seen through the map view.
    pub proof fn lemma_entry_at(self, t: int)
        requires
            self.wf(),
            0 <= t < self.kv().len(),
        ensures
            self@.contains_key(self.kv()[t].0),
            self@[self.kv()[t].0] == self.kv()[t].1,
    {
        lemma_seq_key_map_index(self.entries@, t);
    }

    /// Ties the entry sequence to the map view.
    pub proof fn lemma_entries(self)
        requires
            self.wf(),
        ensures
            forall|i: int|
                0 <= i < self.kv().len() ==> #[trigger] self@.contains_key(self.kv()[i].0)
                    && self@[self.kv()[i].0] == self.kv()[i].1,
            forall|k: u64|
                self@.contains_key(k) ==> exists|i: int|
                    0 <= i < self.kv().len() && #[trigger] self.kv()[i].0 == k,
            self@.dom().finite(),
            self@.dom().len() == self.kv().len(),
    {
        assert forall|i: int| 0 <= i < self.kv().len() implies #[trigger] self@.contains_key(
            self.kv()[i].0,
        ) && self@[self.kv()[i].0] == self.kv()[i].1 by {
            lemma_seq_key_map_index(self.entries@, i);
        }
        assert forall|k: u64| self@.contains_key(k) implies exists|i: int|
            0 <= i < self.kv().len() && #[trigger] self.kv()[i].0 == k by {
            lemma_seq_key_map_contains(self.entries@, k);
        }
        lemma_seq_key_map_dom_len(self.entries@);
    }

    pub fn new() -> (r: KeyMap<V>)
        ensures
            r@ == Map::<u64, V>::empty(),
            r.kv() == Seq::<(u64, V)>::empty(),
            r.wf(),
    {
        KeyMap { entries: Vec::new() }
    }

    /// The number of keys held.
    pub fn len(&self) -> (r: usize)
        requires
            self.wf(),
        ensures
            r == self@.dom().len(),
            r == self.kv().len(),
    {
        proof {
            lemma_seq_key_map_dom_len(self.entries@);
        }
        self.entries.len()
    }

    pub fn contains_key(&self, k: u64) -> (r: bool)
        requires
            self.wf(),
        ensures
            r == self@.contains_key(k),
    {
        self.get(k).is_some()
    }

    pub fn get(&self, k: u64) -> (r: Option<&V>)
        requires
            self.wf(),
        ensures
            match r {
                Some(v) => self@.contains_key(k) && *v == self@[k],
                None => !self@.contains_key(k),
            },
    {
        proof {
            lemma_seq_key_map_contains(self.entries@, k);
        }
        let n = self.entries.len();
        let mut i: usize = 0;
        while i < n
            invariant
                self.wf(),
                n == self.entries.len(),
                0 <= i <= n,
                forall|j: int| 0 <= j < i ==> self.entries@[j].0 != k,
            decreases n - i,
        {
            if self.entries[i].0 == k {
                proof {
                    lemma_seq_key_map_index(self.entries@, i as int);
                }
                return Some(&self.entries[i].1);
            }
            i = i + 1;
        }
        proof {
            lemma_seq_key_map_contains(self.entries@, k);
        }
        None
    }

    pub fn insert(&mut self, k: u64, v: V)
        requires
            old(self).wf(),
        ensures
            final(self)@ == old(self)@.insert(k, v),
            final(self).wf(),
            final(self).kv().len() <= old(self).kv().len() + 1,
    {
        let n = self.entries.len();
        let mut i: usize = 0;
        while i < n
            invariant
                old(self).wf(),
                *self == *old(self),
                n == self.entries.len(),
                0 <= i <= n,
                forall|j: int| 0 <= j < i ==> self.entries@[j].0 != k,
            decreases n - i,
        {
            if self.entries[i].0 == k {
                proof {
                    lemma_seq_key_map_update(self.entries@, i as int, v);
                }
                self.entries[i] = (k, v);
                return ;
            }
            i = i + 1;
        }
        proof {
            lemma_seq_key_map_push(self.entries@, (k, v));
        }
        self.entries.push((k, v));
        proof {
            let t = self.entries@;
            assert forall|a: int, b: int| 0 <= a < b < t.len() implies t[a].0 != t[b].0 by {
                if b < t.len() - 1 {
                    assert(t[a] == old(self).kv()[a] && t[b] == old(self).kv()[b]);
                } else {
                    assert(t[a] == old(self).kv()[a]);
                }
            }
        }
    }

    /// Removes a key; a key not held leaves the map unchanged.
    pub fn remove(&mut self, k: u64)
        requires
            old(self).wf(),
        ensures
            final(self)@ == old(self)@.remove(k),
            final(self).wf(),
            !old(self)@.contains_key(k) ==> *final(self) == *old(self),
    {
        let n = self.entries.len();
        let mut i: usize = 0;
        while i < n
            invariant
                old(self).wf(),
                *self == *old(self),
                n == self.entries.len(),
                0 <= i <= n,
                forall|j: int| 0 <= j < i ==> self.entries@[j].0 != k,
            decreases n - i,
        {
            if self.entries[i].0 == k {
                proof {
                    lemma_seq_key_map_contains(self.entries@, k);
                    lemma_seq_key_map_remove(self.entries@, i as int);
                }
                self.entries.remove(i);
                return ;
            }
            i = i + 1;
        }
        proof {
            lemma_seq_key_map_contains(self.entries@, k);
            assert(!self@.contains_key(k));
            assert(self@ =~= self@.remove(k));
        }
    }


    /// Removes a key and hands its value back; a key not held leaves the
    /// map unchanged.
    pub fn take(&mut self, k: u64) -> (r: Option<V>)
        requires
            old(self).wf(),
        ensures
            final(self)@ == old(self)@.remove(k),
            final(self).wf(),
            match r {
                Some(v) => old(self)@.contains_key(k) && v == old(self)@[k],
                None => !old(self)@.contains_key(k) && *final(self) == *old(self),
            },
    {
        let n = self.entries.len();
        let mut i: usize = 0;
        while i < n
            invariant
                old(self).wf(),
                *self == *old(self),
                n == self.entries.len(),
                0 <= i <= n,
                forall|j: int| 0 <= j < i ==> self.entries@[j].0 != k,
            decreases n - i,
        {
            if self.entries[i].0 == k {
                proof {
                    lemma_seq_key_map_contains(self.entries@, k);
                    lemma_seq_key_map_index(self.entries@, i as int);
                    lemma_seq_key_map_remove(self.entries@, i as int);
                }
                let pair = self.entries.remove(i);
                return Some(pair.1);
            }
            i = i + 1;
        }
        proof {
            lemma_seq_key_map_contains(self.entries@, k);
            assert(!self@.contains_key(k));
            assert(self@ =~= self@.remove(k));
        }
        None
    }

    /// The number of entries, for walking them in order.
    pub fn num_entries(&self) -> (r: usize)
        ensures
            r == self.kv().len(),
    {
        self.entries.len()
    }

    pub fn key_at(&self, i: usize) -> (r: u64)
        requires
            i < self.kv().len(),
        ensures
            r == self.kv()[i as int].0,
    {
        self.entries[i].0
    }

    pub fn value_at(&self, i: usize) -> (r: &V)
        requires
            i < self.kv().len(),
        ensures
            *r == self.kv()[i as int].1,
    {
        &self.entries[i].1
    }

    /// Replaces the value of the entry at a position, keeping its key.
    pub fn set_value_at(&mut self, i: usize, v: V)
        requires
            old(self).wf(),
            i < old(self).kv().len(),
        ensures
            final(self).wf(),
            final(self).kv() == old(self).kv().update(i as int, (old(self).kv()[i as int].0, v)),
            final(self)@ == old(self)@.insert(old(self).kv()[i as int].0, v),
    {
        proof {
            lemma_seq_key_map_update(self.entries@, i as int, v);
        }
        let k = self.entries[i].0;
        self.entries[i] = (k, v);
    }
}

} // verus!
