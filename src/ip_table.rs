//! A table keyed by client address, held as a vector of entries with
//! distinct keys and viewed as a finite map.

use vstd::prelude::*;

verus! {

/// Entries keyed by a 128-bit client address; no key occurs twice.
pub struct IpTable<V> {
    entries: Vec<(u128, V)>,
}

pub open spec fn has_key<V>(s: Seq<(u128, V)>, k: u128) -> bool {
    exists|i: int| 0 <= i < s.len() && s[i].0 == k
}

pub open spec fn key_index<V>(s: Seq<(u128, V)>, k: u128) -> int {
    choose|i: int| 0 <= i < s.len() && s[i].0 == k
}

pub open spec fn keys_unique<V>(s: Seq<(u128, V)>) -> bool {
    forall|i: int, j: int| 0 <= i < s.len() && 0 <= j < s.len() && i != j ==> s[i].0 != s[j].0
}

/// The map that a sequence of entries with distinct keys stands for.
pub open spec fn entries_map<V>(s: Seq<(u128, V)>) -> Map<u128, V> {
    Map::new(|k: u128| has_key(s, k), |k: u128| s[key_index(s, k)].1)
}

proof fn lemma_entry_in_map<V>(s: Seq<(u128, V)>, i: int)
    requires
        keys_unique(s),
        0 <= i < s.len(),
    ensures
        entries_map(s).contains_key(s[i].0),
        entries_map(s)[s[i].0] == s[i].1,
{
    assert(has_key(s, s[i].0));
    let j = key_index(s, s[i].0);
    assert(s[j].0 == s[i].0);
}

proof fn lemma_push_map<V>(s: Seq<(u128, V)>, k: u128, v: V)
    requires
        keys_unique(s),
        !has_key(s, k),
    ensures
        keys_unique(s.push((k, v))),
        entries_map(s.push((k, v))) == entries_map(s).insert(k, v),
{
    let t = s.push((k, v));
    assert forall|i: int, j: int| 0 <= i < t.len() && 0 <= j < t.len() && i != j implies t[i].0
        != t[j].0 by {
        if i < s.len() && j < s.len() {
        } else if i < s.len() {
            assert(s[i].0 == t[i].0);
        } else {
            assert(s[j].0 == t[j].0);
        }
    }
    assert forall|q: u128| #[trigger]
        entries_map(t).contains_key(q) == entries_map(s).insert(k, v).contains_key(q) by {
        if has_key(s, q) {
            let i = key_index(s, q);
            assert(t[i] == s[i]);
        }
        if has_key(t, q) && q != k {
            let i = key_index(t, q);
            assert(i < s.len());
            assert(s[i] == t[i]);
        }
        if q == k {
            assert(t[s.len() as int].0 == k);
        }
    }
    assert forall|q: u128| #[trigger] entries_map(t).contains_key(q) implies entries_map(t)[q]
        == entries_map(s).insert(k, v)[q] by {
        if q == k {
            lemma_entry_in_map(t, s.len() as int);
        } else {
            let i = key_index(t, q);
            assert(i < s.len());
            assert(s[i] == t[i]);
            lemma_entry_in_map(s, i);
            lemma_entry_in_map(t, i);
        }
    }
    assert(entries_map(t) =~= entries_map(s).insert(k, v));
}

proof fn lemma_remove_map<V>(s: Seq<(u128, V)>, i: int)
    requires
        keys_unique(s),
        0 <= i < s.len(),
    ensures
        keys_unique(s.remove(i)),
        entries_map(s.remove(i)) == entries_map(s).remove(s[i].0),
{
    let t = s.remove(i);
    let k = s[i].0;
    assert forall|a: int, b: int| 0 <= a < t.len() && 0 <= b < t.len() && a != b implies t[a].0
        != t[b].0 by {
        let a2 = if a < i {
            a
        } else {
            a + 1
        };
        let b2 = if b < i {
            b
        } else {
            b + 1
        };
        assert(t[a] == s[a2]);
        assert(t[b] == s[b2]);
    }
    assert forall|q: u128| #[trigger]
        entries_map(t).contains_key(q) == entries_map(s).remove(k).contains_key(q) by {
        if has_key(s, q) && q != k {
            let j = key_index(s, q);
            assert(j != i);
            if j < i {
                assert(t[j] == s[j]);
            } else {
                assert(t[j - 1] == s[j]);
            }
        }
        if has_key(t, q) {
            let j = key_index(t, q);
            let j2 = if j < i {
                j
            } else {
                j + 1
            };
            assert(t[j] == s[j2]);
            assert(j2 != i);
        }
    }
    assert forall|q: u128| #[trigger] entries_map(t).contains_key(q) implies entries_map(t)[q]
        == entries_map(s).remove(k)[q] by {
        let j = key_index(t, q);
        let j2 = if j < i {
            j
        } else {
            j + 1
        };
        assert(t[j] == s[j2]);
        lemma_entry_in_map(t, j);
        lemma_entry_in_map(s, j2);
    }
    assert(entries_map(t) =~= entries_map(s).remove(k));
}

proof fn lemma_update_map<V>(s: Seq<(u128, V)>, i: int, v: V)
    requires
        keys_unique(s),
        0 <= i < s.len(),
    ensures
        keys_unique(s.update(i, (s[i].0, v))),
        entries_map(s.update(i, (s[i].0, v))) == entries_map(s).insert(s[i].0, v),
{
    let t = s.update(i, (s[i].0, v));
    let k = s[i].0;
    assert forall|a: int, b: int| 0 <= a < t.len() && 0 <= b < t.len() && a != b implies t[a].0
        != t[b].0 by {
        assert(t[a].0 == s[a].0);
        assert(t[b].0 == s[b].0);
    }
    assert forall|q: u128| #[trigger]
        entries_map(t).contains_key(q) == entries_map(s).insert(k, v).contains_key(q) by {
        if has_key(s, q) {
            let j = key_index(s, q);
            assert(t[j].0 == s[j].0);
        }
        if has_key(t, q) {
            let j = key_index(t, q);
            assert(t[j].0 == s[j].0);
        }
        assert(t[i].0 == k);
    }
    assert forall|q: u128| #[trigger] entries_map(t).contains_key(q) implies entries_map(t)[q]
        == entries_map(s).insert(k, v)[q] by {
        let j = key_index(t, q);
        lemma_entry_in_map(t, j);
        if j != i {
            assert(t[j] == s[j]);
            lemma_entry_in_map(s, j);
        }
    }
    assert(entries_map(t) =~= entries_map(s).insert(k, v));
}

impl<V> View for IpTable<V> {
    type V = Map<u128, V>;

    closed spec fn view(&self) -> Map<u128, V> {
        entries_map(self.entries@)
    }
}

impl<V> IpTable<V> {
    pub closed spec fn wf(&self) -> bool {
        keys_unique(self.entries@)
    }

    /// The entries in the order in which the table holds them.
    pub closed spec fn items(&self) -> Seq<(u128, V)> {
        self.entries@
    }

    /// The entries carry distinct keys and are exactly the pairs of the map.
    pub proof fn lemma_items(&self)
        requires
            self.wf(),
        ensures
            forall|i: int, j: int|
                0 <= i < self.items().len() && 0 <= j < self.items().len() && i != j
                    ==> self.items()[i].0 != self.items()[j].0,
            forall|i: int| #![trigger self.items()[i]]
                0 <= i < self.items().len() ==> self@.contains_key(self.items()[i].0)
                    && self@[self.items()[i].0] == self.items()[i].1,
            forall|k: u128| #[trigger]
                self@.contains_key(k) ==> exists|i: int|
                    0 <= i < self.items().len() && self.items()[i].0 == k,
    {
        assert forall|i: int| #![trigger self.items()[i]]
            0 <= i < self.items().len() implies self@.contains_key(self.items()[i].0)
                && self@[self.items()[i].0] == self.items()[i].1 by {
            lemma_entry_in_map(self.entries@, i);
        }
        assert forall|k: u128| #[trigger] self@.contains_key(k) implies exists|i: int|
            0 <= i < self.items().len() && self.items()[i].0 == k by {
            assert(entries_map(self.entries@).contains_key(k));
            assert(has_key(self.entries@, k));
            let i = key_index(self.entries@, k);
            assert(self.items()[i].0 == k);
        }
    }

    /// The entry at position `i`.
    pub fn entry(&self, i: usize) -> (r: (u128, &V))
        requires
            i < self.items().len(),
        ensures
            r.0 == self.items()[i as int].0,
            *r.1 == self.items()[i as int].1,
    {
        (self.entries[i].0, &self.entries[i].1)
    }

    pub fn new() -> (r: Self)
        ensures
            r.wf(),
            r@ == Map::<u128, V>::empty(),
    {
        let r = IpTable { entries: Vec::new() };
        assert(r@ =~= Map::<u128, V>::empty());
        r
    }

    /// Number of keys in the table.
    pub fn len(&self) -> (r: usize)
        requires
            self.wf(),
        ensures
            r == self@.dom().len(),
            r == self.items().len(),
    {
        proof {
            self.lemma_len();
        }
        self.entries.len()
    }

    proof fn lemma_len(&self)
        requires
            self.wf(),
        ensures
            self@.dom().finite(),
            self@.dom().len() == self.entries@.len(),
    {
        let s = self.entries@;
        let ks = s.map_values(|e: (u128, V)| e.0);
        assert(ks.no_duplicates()) by {
            assert forall|i: int, j: int| 0 <= i < ks.len() && 0 <= j < ks.len() && i != j implies ks[i]
                != ks[j] by {
                assert(ks[i] == s[i].0);
                assert(ks[j] == s[j].0);
            }
        }
        ks.unique_seq_to_set();
        assert forall|q: u128| #[trigger] self@.dom().contains(q) == ks.to_set().contains(q) by {
            if has_key(s, q) {
                let j = key_index(s, q);
                assert(ks[j] == q);
            }
            if ks.to_set().contains(q) {
                let j = choose|j: int| 0 <= j < ks.len() && ks[j] == q;
                assert(s[j].0 == q);
            }
        }
        assert(self@.dom() =~= ks.to_set());
    }

    fn find(&self, k: u128) -> (r: Option<usize>)
        requires
            self.wf(),
        ensures
            match r {
                Some(i) => i < self.entries@.len() && self.entries@[i as int].0 == k
                    && self@.contains_key(k) && self@[k] == self.entries@[i as int].1,
                None => !self@.contains_key(k),
            },
    {
        let mut i: usize = 0;
        while i < self.entries.len()
            invariant
                self.wf(),
                i <= self.entries@.len(),
                forall|j: int| 0 <= j < i ==> self.entries@[j].0 != k,
            decreases self.entries@.len() - i,
        {
            if self.entries[i].0 == k {
                proof {
                    lemma_entry_in_map(self.entries@, i as int);
                }
                return Some(i);
            }
            i = i + 1;
        }
        None
    }

    pub fn get(&self, k: u128) -> (r: Option<&V>)
        requires
            self.wf(),
        ensures
            match r {
                Some(v) => self@.contains_key(k) && *v == self@[k],
                None => !self@.contains_key(k),
            },
    {
        match self.find(k) {
            Some(i) => Some(&self.entries[i].1),
            None => None,
        }
    }

    /// Sets the value of `k`, adding the key if it is new.
    pub fn insert(&mut self, k: u128, v: V)
        requires
            old(self).wf(),
        ensures
            final(self).wf(),
            final(self)@ == old(self)@.insert(k, v),
    {
        match self.find(k) {
            Some(i) => {
                proof {
                    lemma_update_map(self.entries@, i as int, v);
                }
                self.entries.set(i, (k, v));
            },
            None => {
                proof {
                    lemma_push_map(self.entries@, k, v);
                }
                self.entries.push((k, v));
            },
        }
    }

    /// Takes `k` out of the table, handing back its value if it was there.
    pub fn remove(&mut self, k: u128) -> (r: Option<V>)
        requires
            old(self).wf(),
        ensures
            final(self).wf(),
            final(self)@ == old(self)@.remove(k),
            match r {
                Some(v) => old(self)@.contains_key(k) && v == old(self)@[k],
                None => !old(self)@.contains_key(k) && *final(self) == *old(self),
            },
    {
        match self.find(k) {
            Some(i) => {
                proof {
                    lemma_remove_map(self.entries@, i as int);
                }
                let e = self.entries.remove(i);
                Some(e.1)
            },
            None => {
                proof {
                    assert(old(self)@.remove(k) =~= old(self)@);
                }
                None
            },
        }
    }

    /// Keeps the entries on which `keep` holds and drops the others.
    pub(crate) fn retain<F: Fn(u128, &V) -> bool>(
        &mut self,
        keep: F,
        Ghost(pred): Ghost<spec_fn(u128, V) -> bool>,
    )
        requires
            old(self).wf(),
            forall|k: u128, v: &V| #[trigger] keep.requires((k, v)),
            forall|k: u128, v: &V, r: bool| keep.ensures((k, v), r) ==> r == pred(k, *v),
        ensures
            final(self).wf(),
            final(self)@ == old(self)@.restrict(
                old(self)@.dom().filter(|k: u128| pred(k, old(self)@[k])),
            ),
    {
        let ghost s = self.entries@;
        let mut kept: Vec<(u128, V)> = Vec::new();
        proof {
            assert(s.take(s.len() as int) =~= s);
        }
        while self.entries.len() > 0
            invariant
                keys_unique(s),
                self.entries@.len() <= s.len(),
                self.entries@ == s.take(self.entries@.len() as int),
                keys_unique(kept@),
                forall|q: u128| #[trigger]
                    has_key(kept@, q) <==> (exists|j: int|
                        self.entries@.len() <= j < s.len() && s[j].0 == q && pred(q, s[j].1)),
                forall|q: u128| #[trigger]
                    has_key(kept@, q) ==> entries_map(kept@)[q] == entries_map(s)[q],
                forall|k: u128, v: &V| #[trigger] keep.requires((k, v)),
                forall|k: u128, v: &V, r: bool| keep.ensures((k, v), r) ==> r == pred(k, *v),
            decreases self.entries@.len(),
        {
            let ghost n = self.entries@.len() as int;
            let e = self.entries.pop().unwrap();
            proof {
                assert(e == s[n - 1]);
                assert(self.entries@ =~= s.take(n - 1));
            }
            if keep(e.0, &e.1) {
                proof {
                    if has_key(kept@, e.0) {
                        let j = choose|j: int| n <= j < s.len() && s[j].0 == e.0 && pred(e.0, s[j].1);
                        assert(s[n - 1].0 == s[j].0);
                    }
                    lemma_push_map(kept@, e.0, e.1);
                    lemma_entry_in_map(s, n - 1);
                    assert forall|q: u128| #[trigger]
                        has_key(kept@.push(e), q) <==> (exists|j: int|
                            n - 1 <= j < s.len() && s[j].0 == q && pred(q, s[j].1)) by {
                        if has_key(kept@.push(e), q) && q != e.0 {
                            let i = key_index(kept@.push(e), q);
                            assert(kept@.push(e)[i] == kept@[i]);
                            assert(has_key(kept@, q));
                        }
                        if q == e.0 {
                            assert(kept@.push(e)[kept@.len() as int].0 == q);
                        }
                        if has_key(kept@, q) {
                            let i = key_index(kept@, q);
                            assert(kept@.push(e)[i] == kept@[i]);
                        }
                    }
                    assert forall|q: u128| #[trigger] has_key(kept@.push(e), q) implies entries_map(
                        kept@.push(e),
                    )[q] == entries_map(s)[q] by {
                        if q != e.0 {
                            let i = key_index(kept@.push(e), q);
                            assert(kept@.push(e)[i] == kept@[i]);
                            assert(has_key(kept@, q));
                        }
                    }
                }
                kept.push(e);
            } else {
                proof {
                    assert forall|q: u128| #[trigger]
                        has_key(kept@, q) <==> (exists|j: int|
                            n - 1 <= j < s.len() && s[j].0 == q && pred(q, s[j].1)) by {
                        if exists|j: int| n - 1 <= j < s.len() && s[j].0 == q && pred(q, s[j].1) {
                            let j = choose|j: int| n - 1 <= j < s.len() && s[j].0 == q && pred(q, s[j].1);
                            if j == n - 1 {
                                assert(false);
                            }
                        }
                    }
                }
            }
        }
        proof {
            let m = entries_map(s);
            let target = m.restrict(m.dom().filter(|k: u128| pred(k, m[k])));
            assert forall|q: u128| #[trigger] entries_map(kept@).contains_key(q) == target.contains_key(q) by {
                if has_key(kept@, q) {
                    let j = choose|j: int| 0 <= j < s.len() && s[j].0 == q && pred(q, s[j].1);
                    lemma_entry_in_map(s, j);
                }
                if target.contains_key(q) {
                    let j = key_index(s, q);
                    lemma_entry_in_map(s, j);
                    assert(exists|j: int| 0 <= j < s.len() && s[j].0 == q && pred(q, s[j].1));
                }
            }
            assert(entries_map(kept@) =~= target);
        }
        self.entries = kept;
    }

    pub fn clear(&mut self)
        ensures
            final(self).wf(),
            final(self)@ == Map::<u128, V>::empty(),
    {
        self.entries = Vec::new();
        assert(self@ =~= Map::<u128, V>::empty());
    }
}

} // verus!
