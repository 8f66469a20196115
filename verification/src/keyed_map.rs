//! An ordered map from beneficiary identifiers to values.
//!
//! The contracts keep their per-beneficiary tables in maps that iterate in
//! ascending key order.  `KeyedMap` is that table: a vector of `(key, value)`
//! entries whose keys are strictly increasing, viewed as a `Map`.
use vstd::prelude::*;

verus! {

/// Identifier of a beneficiary (an account).  Its numeric order is the order in
/// which the tables are walked.
pub type BeneficiaryId = u64;

/// Keys strictly increasing.
pub open spec fn keys_ascending<V>(s: Seq<(u64, V)>) -> bool {
    forall|i: int, j: int| 0 <= i < j < s.len() ==> s[i].0 < s[j].0
}

pub open spec fn has_key<V>(s: Seq<(u64, V)>, k: u64) -> bool {
    exists|i: int| 0 <= i < s.len() && s[i].0 == k
}

pub open spec fn position_of<V>(s: Seq<(u64, V)>, k: u64) -> int {
    choose|i: int| 0 <= i < s.len() && s[i].0 == k
}

/// The value stored under `k`, if any.
pub open spec fn lookup<V>(s: Seq<(u64, V)>, k: u64) -> Option<V> {
    if has_key(s, k) {
        Some(s[position_of(s, k)].1)
    } else {
        None
    }
}

/// With ascending keys, the entry at `i` is what `lookup` finds for its key.
pub proof fn lemma_lookup_at<V>(s: Seq<(u64, V)>, i: int)
    requires
        keys_ascending(s),
        0 <= i < s.len(),
    ensures
        has_key(s, s[i].0),
        position_of(s, s[i].0) == i,
        lookup(s, s[i].0) == Some(s[i].1),
{
    let k = s[i].0;
    assert(has_key(s, k));
    let j = position_of(s, k);
    if j < i {
        assert(s[j].0 < s[i].0);
    } else if j > i {
        assert(s[i].0 < s[j].0);
    }
}

pub struct KeyedMap<V> {
    pub entries: Vec<(u64, V)>,
}

impl<V: Copy> KeyedMap<V> {
    pub open spec fn wf(&self) -> bool {
        keys_ascending(self.entries@)
    }

    pub open spec fn view(&self) -> Map<u64, V> {
        Map::new(
            |k: u64| has_key(self.entries@, k),
            |k: u64| self.entries@[position_of(self.entries@, k)].1,
        )
    }

    /// An empty table.
    pub fn new() -> (m: Self)
        ensures
            m.wf(),
            m.entries@.len() == 0,
            m@ == Map::<u64, V>::empty(),
    {
        let m = KeyedMap { entries: Vec::new() };
        assert(m@ =~= Map::<u64, V>::empty());
        m
    }

    pub fn len(&self) -> (n: usize)
        ensures
            n == self.entries@.len(),
    {
        self.entries.len()
    }

    /// The value stored under `k`.
    pub fn get(&self, k: u64) -> (r: Option<V>)
        requires
            self.wf(),
        ensures
            r == lookup(self.entries@, k),
            r == (if self@.contains_key(k) { Some(self@[k]) } else { None }),
    {
        let n = self.entries.len();
        let mut i: usize = 0;
        while i < n
            invariant
                n == self.entries@.len(),
                keys_ascending(self.entries@),
                0 <= i <= n,
                forall|j: int| 0 <= j < i ==> self.entries@[j].0 != k,
            decreases n - i,
        {
            let (key, value) = self.entries[i];
            if key == k {
                proof {
                    lemma_lookup_at(self.entries@, i as int);
                }
                return Some(value);
            }
            i = i + 1;
        }
        None
    }

    /// Store `v` under `k`, replacing any value stored there.
    pub fn set(&mut self, k: u64, v: V)
        requires
            old(self).wf(),
        ensures
            final(self).wf(),
            final(self)@ == old(self)@.insert(k, v),
            old(self)@.contains_key(k) ==> final(self).entries@.len() == old(self).entries@.len(),
            !old(self)@.contains_key(k) ==> final(self).entries@.len() == old(self).entries@.len() + 1,
    {
        let ghost s0 = self.entries@;
        let n = self.entries.len();
        let mut i: usize = 0;
        while i < n && self.entries[i].0 < k
            invariant
                n == self.entries@.len(),
                self.entries@ == s0,
                keys_ascending(s0),
                0 <= i <= n,
                forall|j: int| 0 <= j < i ==> s0[j].0 < k,
            decreases n - i,
        {
            i = i + 1;
        }
        if i < n && self.entries[i].0 == k {
            self.entries.set(i, (k, v));
            proof {
                let s1 = self.entries@;
                assert(keys_ascending(s1));
                assert forall|key: u64| #[trigger] has_key(s1, key) == (has_key(s0, key) || key == k) by {
                    if has_key(s0, key) {
                        let p = position_of(s0, key);
                        assert(s1[p].0 == key);
                    }
                    if has_key(s1, key) {
                        let p = position_of(s1, key);
                        assert(s0[p].0 == key);
                    }
                }
                assert forall|key: u64| has_key(s1, key) implies s1[position_of(s1, key)].1 == (if key == k { v } else { s0[position_of(s0, key)].1 }) by {
                    let p = position_of(s1, key);
                    lemma_lookup_at(s1, p);
                    if key != k {
                        assert(s0[p].0 == key);
                        lemma_lookup_at(s0, p);
                    }
                }
                assert(self@ =~= old(self)@.insert(k, v));
            }
        } else {
            proof {
                assert forall|j: int| i <= j < n implies s0[j].0 > k by {
                    if i < n {
                        assert(s0[i as int].0 > k);
                        if j > i {
                            assert(s0[i as int].0 < s0[j].0);
                        }
                    }
                }
                assert(!has_key(s0, k)) by {
                    if has_key(s0, k) {
                        let p = position_of(s0, k);
                        assert(s0[p].0 == k);
                    }
                }
            }
            self.entries.insert(i, (k, v));
            proof {
                let s1 = self.entries@;
                assert(s1.len() == s0.len() + 1);
                assert forall|a: int, b: int| 0 <= a < b < s1.len() implies s1[a].0 < s1[b].0 by {
                    if b < i {
                    } else if a < i && b == i {
                    } else if a < i && b > i {
                        assert(s1[b] == s0[b - 1]);
                    } else if a == i {
                        assert(s1[b] == s0[b - 1]);
                    } else {
                        assert(s1[a] == s0[a - 1]);
                        assert(s1[b] == s0[b - 1]);
                    }
                }
                assert(keys_ascending(s1));
                assert forall|key: u64| #[trigger] has_key(s1, key) == (has_key(s0, key) || key == k) by {
                    if has_key(s0, key) {
                        let p = position_of(s0, key);
                        if p < i {
                            assert(s1[p].0 == key);
                        } else {
                            assert(s1[p + 1].0 == key);
                        }
                    }
                    if key == k {
                        assert(s1[i as int].0 == key);
                    }
                    if has_key(s1, key) {
                        let p = position_of(s1, key);
                        if p < i {
                            assert(s0[p].0 == key);
                        } else if p > i {
                            assert(s0[p - 1].0 == key);
                        }
                    }
                }
                assert forall|key: u64| has_key(s1, key) implies s1[position_of(s1, key)].1 == (if key == k { v } else { s0[position_of(s0, key)].1 }) by {
                    let p = position_of(s1, key);
                    lemma_lookup_at(s1, p);
                    if p < i {
                        lemma_lookup_at(s0, p);
                    } else if p > i {
                        lemma_lookup_at(s0, p - 1);
                    }
                }
                assert(self@ =~= old(self)@.insert(k, v));
            }
        }
    }
}

} // verus!
