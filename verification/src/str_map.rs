//! A map keyed by strings, kept as a vector of entries with distinct keys.
use vstd::prelude::*;

verus! {

pub open spec fn keys_distinct<V>(s: Seq<(String, V)>) -> bool {
    forall|i: int, j: int| 0 <= i < j < s.len() ==> s[i].0@ != s[j].0@
}

pub open spec fn has_str_key<V>(s: Seq<(String, V)>, k: Seq<char>) -> bool {
    exists|i: int| 0 <= i < s.len() && s[i].0@ == k
}

pub open spec fn str_position<V>(s: Seq<(String, V)>, k: Seq<char>) -> int {
    choose|i: int| 0 <= i < s.len() && s[i].0@ == k
}

pub proof fn lemma_str_position_at<V>(s: Seq<(String, V)>, i: int)
    requires
        keys_distinct(s),
        0 <= i < s.len(),
    ensures
        has_str_key(s, s[i].0@),
        str_position(s, s[i].0@) == i,
{
    let k = s[i].0@;
    assert(has_str_key(s, k));
    let j = str_position(s, k);
    if j < i {
        assert(s[j].0@ != s[i].0@);
    } else if j > i {
        assert(s[i].0@ != s[j].0@);
    }
}

pub struct StrMap<V> {
    pub entries: Vec<(String, V)>,
}

impl<V> StrMap<V> {
    pub open spec fn wf(&self) -> bool {
        keys_distinct(self.entries@)
    }

    pub open spec fn view(&self) -> Map<Seq<char>, V> {
        Map::new(
            |k: Seq<char>| has_str_key(self.entries@, k),
            |k: Seq<char>| self.entries@[str_position(self.entries@, k)].1,
        )
    }

    pub fn new() -> (m: Self)
        ensures
            m.wf(),
            m.entries@.len() == 0,
            m@ == Map::<Seq<char>, V>::empty(),
    {
        let m = StrMap { entries: Vec::new() };
        assert(m@ =~= Map::<Seq<char>, V>::empty());
        m
    }

    pub fn len(&self) -> (n: usize)
        ensures
            n == self.entries@.len(),
    {
        self.entries.len()
    }

    /// The value stored under `key`.
    pub fn get(&self, key: &str) -> (r: Option<&V>)
        requires
            self.wf(),
        ensures
            r.is_some() == self@.contains_key(key@),
            r matches Some(v) ==> *v == self@[key@],
    {
        let k = key.to_owned();
        let n = self.entries.len();
        let mut i: usize = 0;
        while i < n
            invariant
                n == self.entries@.len(),
                keys_distinct(self.entries@),
                k@ == key@,
                0 <= i <= n,
                forall|j: int| 0 <= j < i ==> self.entries@[j].0@ != key@,
            decreases n - i,
        {
            if self.entries[i].0 == k {
                proof {
                    lemma_str_position_at(self.entries@, i as int);
                }
                return Some(&self.entries[i].1);
            }
            i = i + 1;
        }
        None
    }

    /// Store `value` under `key`, replacing any value stored there.
    pub fn insert(&mut self, key: String, value: V)
        requires
            old(self).wf(),
        ensures
            final(self).wf(),
            final(self)@ == old(self)@.insert(key@, value),
    {
        let ghost s0 = self.entries@;
        let ghost k = key@;
        let n = self.entries.len();
        let mut i: usize = 0;
        while i < n
            invariant
                n == self.entries@.len(),
                self.entries@ == s0,
                old(self).entries@ == s0,
                keys_distinct(s0),
                key@ == k,
                0 <= i <= n,
                forall|j: int| 0 <= j < i ==> s0[j].0@ != k,
            decreases n - i,
        {
            if self.entries[i].0 == key {
                self.entries.set(i, (key, value));
                proof {
                    let s1 = self.entries@;
                    assert(keys_distinct(s1)) by {
                        assert forall|a: int, b: int| 0 <= a < b < s1.len() implies s1[a].0@ != s1[b].0@ by {
                            if a == i {
                                assert(s0[a].0@ == k);
                            }
                            if b == i {
                                assert(s0[b].0@ == k);
                            }
                        }
                    }
                    assert forall|x: Seq<char>| #[trigger] has_str_key(s1, x) == (has_str_key(s0, x) || x == k) by {
                        if has_str_key(s0, x) {
                            let p = str_position(s0, x);
                            if p == i {
                                assert(s0[p].0@ == k);
                                assert(s1[p].0@ == k);
                            } else {
                                assert(s1[p].0@ == x);
                            }
                        }
                        if x == k {
                            assert(s1[i as int].0@ == k);
                        }
                        if has_str_key(s1, x) {
                            let p = str_position(s1, x);
                            if p != i {
                                assert(s0[p].0@ == x);
                            } else {
                                assert(s0[p].0@ == k);
                            }
                        }
                    }
                    assert forall|x: Seq<char>| has_str_key(s1, x) implies s1[str_position(s1, x)].1 == (if x == k { value } else { s0[str_position(s0, x)].1 }) by {
                        let p = str_position(s1, x);
                        lemma_str_position_at(s1, p);
                        if x != k {
                            assert(p != i);
                            assert(s0[p].0@ == x);
                            lemma_str_position_at(s0, p);
                        }
                    }
                    assert(self@ =~= old(self)@.insert(k, value));
                }
                return;
            }
            i = i + 1;
        }
        self.entries.push((key, value));
        proof {
            let s1 = self.entries@;
            assert(keys_distinct(s1)) by {
                assert forall|a: int, b: int| 0 <= a < b < s1.len() implies s1[a].0@ != s1[b].0@ by {
                    if b == n {
                        assert(s1[a] == s0[a]);
                    } else {
                        assert(s1[a] == s0[a]);
                        assert(s1[b] == s0[b]);
                    }
                }
            }
            assert forall|x: Seq<char>| #[trigger] has_str_key(s1, x) == (has_str_key(s0, x) || x == k) by {
                if has_str_key(s0, x) {
                    let p = str_position(s0, x);
                    assert(s1[p] == s0[p]);
                }
                if x == k {
                    assert(s1[n as int].0@ == k);
                }
                if has_str_key(s1, x) {
                    let p = str_position(s1, x);
                    if p < n {
                        assert(s1[p] == s0[p]);
                    }
                }
            }
            assert forall|x: Seq<char>| has_str_key(s1, x) implies s1[str_position(s1, x)].1 == (if x == k { value } else { s0[str_position(s0, x)].1 }) by {
                let p = str_position(s1, x);
                lemma_str_position_at(s1, p);
                if x != k {
                    assert(p != n);
                    assert(s1[p] == s0[p]);
                    lemma_str_position_at(s0, p);
                } else {
                    assert(s1[n as int].0@ == k);
                    lemma_str_position_at(s1, n as int);
                }
            }
            assert(self@ =~= old(self)@.insert(k, value));
        }
    }
}

} // verus!
