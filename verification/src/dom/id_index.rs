//! The document's id → node index: a small map keyed by id strings.

use vstd::prelude::*;
use super::node::NodeId;
use crate::text::str_eq;

verus! {

/// The value stored under key `k` in a sequence of entries (the last entry with that key).
pub open spec fn find_key(s: Seq<(String, NodeId)>, k: Seq<char>) -> Option<NodeId>
    decreases s.len(),
{
    if s.len() == 0 {
        None
    } else if s.last().0@ == k {
        Some(s.last().1)
    } else {
        find_key(s.drop_last(), k)
    }
}

/// No key occurs twice among the entries.
pub open spec fn keys_unique(s: Seq<(String, NodeId)>) -> bool {
    forall|i: int, j: int| 0 <= i < j < s.len() ==> s[i].0@ != s[j].0@
}

proof fn lemma_find_key_at(s: Seq<(String, NodeId)>, i: int, k: Seq<char>)
    requires
        keys_unique(s),
        0 <= i < s.len(),
        s[i].0@ == k,
    ensures
        find_key(s, k) == Some(s[i].1),
    decreases s.len(),
{
    if i < s.len() - 1 {
        assert(s.last().0@ != k);
        lemma_find_key_at(s.drop_last(), i, k);
    }
}

proof fn lemma_find_key_absent(s: Seq<(String, NodeId)>, k: Seq<char>)
    requires
        forall|i: int| 0 <= i < s.len() ==> s[i].0@ != k,
    ensures
        find_key(s, k) is None,
    decreases s.len(),
{
    if s.len() > 0 {
        lemma_find_key_absent(s.drop_last(), k);
    }
}

proof fn lemma_find_key_some(s: Seq<(String, NodeId)>, k: Seq<char>)
    requires
        find_key(s, k) is Some,
    ensures
        exists|i: int| 0 <= i < s.len() && s[i].0@ == k && s[i].1 == find_key(s, k)->0,
    decreases s.len(),
{
    if s.last().0@ != k {
        lemma_find_key_some(s.drop_last(), k);
        let i = choose|i: int| 0 <= i < s.drop_last().len() && s.drop_last()[i].0@ == k
            && s.drop_last()[i].1 == find_key(s.drop_last(), k)->0;
        assert(s[i] == s.drop_last()[i]);
    } else {
        assert(s[s.len() - 1] == s.last());
    }
}

/// Map from element id strings to the node that carries that id.
pub struct IdIndex {
    pub entries: Vec<(String, NodeId)>,
}

impl View for IdIndex {
    type V = Map<Seq<char>, NodeId>;

    open spec fn view(&self) -> Map<Seq<char>, NodeId> {
        Map::new(|k: Seq<char>| find_key(self.entries@, k) is Some, |k: Seq<char>| find_key(self.entries@, k)->0)
    }
}

impl IdIndex {
    /// Keys are unique.
    pub open spec fn wf(&self) -> bool {
        keys_unique(self.entries@)
    }

    /// An empty index.
    pub fn new() -> (m: Self)
        ensures
            m.wf(),
            m@ == Map::<Seq<char>, NodeId>::empty(),
    {
        let m = IdIndex { entries: Vec::new() };
        assert(m@ =~= Map::<Seq<char>, NodeId>::empty());
        m
    }

    /// Position of key `k`, if present.
    fn position(&self, k: &str) -> (r: Option<usize>)
        requires
            self.wf(),
        ensures
            match r {
                Some(i) => i < self.entries@.len() && self.entries@[i as int].0@ == k@,
                None => forall|i: int| 0 <= i < self.entries@.len() ==> self.entries@[i].0@ != k@,
            },
    {
        let mut i: usize = 0;
        while i < self.entries.len()
            invariant
                i <= self.entries@.len(),
                forall|j: int| 0 <= j < i ==> self.entries@[j].0@ != k@,
            decreases self.entries@.len() - i,
        {
            if str_eq(self.entries[i].0.as_str(), k) {
                return Some(i);
            }
            i = i + 1;
        }
        None
    }

    /// Whether an entry exists for `k`.
    pub fn contains_key(&self, k: &str) -> (b: bool)
        requires
            self.wf(),
        ensures
            b == self@.contains_key(k@),
    {
        match self.position(k) {
            Some(i) => {
                proof { lemma_find_key_at(self.entries@, i as int, k@); }
                true
            },
            None => {
                proof { lemma_find_key_absent(self.entries@, k@); }
                false
            },
        }
    }

    /// The node stored under `k`.
    pub fn get(&self, k: &str) -> (r: Option<NodeId>)
        requires
            self.wf(),
        ensures
            r == (if self@.contains_key(k@) { Some(self@[k@]) } else { None }),
    {
        match self.position(k) {
            Some(i) => {
                proof { lemma_find_key_at(self.entries@, i as int, k@); }
                Some(self.entries[i].1)
            },
            None => {
                proof { lemma_find_key_absent(self.entries@, k@); }
                None
            },
        }
    }

    /// Stores `v` under `k`, replacing any previous value.
    pub fn insert(&mut self, k: String, v: NodeId)
        requires
            old(self).wf(),
        ensures
            final(self).wf(),
            final(self)@ == old(self)@.insert(k@, v),
    {
        let ghost old_e = self.entries@;
        let pos = self.position(k.as_str());
        match pos {
            Some(i) => {
                let ghost kv = k@;
                self.entries.set(i, (k, v));
                proof {
                    assert forall|a: int, b: int| 0 <= a < b < self.entries@.len() implies
                        self.entries@[a].0@ != self.entries@[b].0@ by {
                        if a != i as int && b != i as int {
                            assert(self.entries@[a] == old_e[a]);
                            assert(self.entries@[b] == old_e[b]);
                        }
                    }
                    assert forall|key: Seq<char>| #![auto] find_key(self.entries@, key) == (if key == kv { Some(v) } else { find_key(old_e, key) }) by {
                        if key == kv {
                            lemma_find_key_at(self.entries@, i as int, key);
                        } else {
                            if find_key(old_e, key) is Some {
                                lemma_find_key_some(old_e, key);
                                let j = choose|j: int| 0 <= j < old_e.len() && old_e[j].0@ == key && old_e[j].1 == find_key(old_e, key)->0;
                                assert(self.entries@[j] == old_e[j]);
                                lemma_find_key_at(self.entries@, j, key);
                            } else {
                                if find_key(self.entries@, key) is Some {
                                    lemma_find_key_some(self.entries@, key);
                                    let j = choose|j: int| 0 <= j < self.entries@.len() && self.entries@[j].0@ == key && self.entries@[j].1 == find_key(self.entries@, key)->0;
                                    assert(self.entries@[j] == old_e[j]);
                                    lemma_find_key_at(old_e, j, key);
                                }
                            }
                        }
                    }
                    assert(self@ =~= old(self)@.insert(kv, v));
                }
            },
            None => {
                let ghost kv = k@;
                self.entries.push((k, v));
                proof {
                    assert(self.entries@.drop_last() =~= old_e);
                    assert forall|key: Seq<char>| #![auto] find_key(self.entries@, key) == (if key == kv { Some(v) } else { find_key(old_e, key) }) by {
                    }
                    assert(self@ =~= old(self)@.insert(kv, v));
                }
            },
        }
    }

    /// Removes the entry for `k`, if any.
    pub fn remove(&mut self, k: &str)
        requires
            old(self).wf(),
        ensures
            final(self).wf(),
            final(self)@ == old(self)@.remove(k@),
    {
        let ghost old_e = self.entries@;
        match self.position(k) {
            Some(i) => {
                self.entries.remove(i);
                proof {
                    assert forall|a: int, b: int| 0 <= a < b < self.entries@.len() implies
                        self.entries@[a].0@ != self.entries@[b].0@ by {
                        let oa = if a < i { a } else { a + 1 };
                        let ob = if b < i { b } else { b + 1 };
                        assert(self.entries@[a] == old_e[oa]);
                        assert(self.entries@[b] == old_e[ob]);
                    }
                    assert forall|key: Seq<char>| #![auto] find_key(self.entries@, key) == (if key == k@ { None } else { find_key(old_e, key) }) by {
                        if key == k@ {
                            assert forall|j: int| 0 <= j < self.entries@.len() implies self.entries@[j].0@ != key by {
                                let oj = if j < i { j } else { j + 1 };
                                assert(self.entries@[j] == old_e[oj]);
                            }
                            lemma_find_key_absent(self.entries@, key);
                        } else {
                            if find_key(old_e, key) is Some {
                                lemma_find_key_some(old_e, key);
                                let j = choose|j: int| 0 <= j < old_e.len() && old_e[j].0@ == key && old_e[j].1 == find_key(old_e, key)->0;
                                let nj = if j < i { j } else { j - 1 };
                                assert(self.entries@[nj] == old_e[j]);
                                lemma_find_key_at(self.entries@, nj, key);
                            } else {
                                if find_key(self.entries@, key) is Some {
                                    lemma_find_key_some(self.entries@, key);
                                    let j = choose|j: int| 0 <= j < self.entries@.len() && self.entries@[j].0@ == key && self.entries@[j].1 == find_key(self.entries@, key)->0;
                                    let oj = if j < i { j } else { j + 1 };
                                    assert(self.entries@[j] == old_e[oj]);
                                    lemma_find_key_at(old_e, oj, key);
                                }
                            }
                        }
                    }
                    assert(self@ =~= old(self)@.remove(k@));
                }
            },
            None => {
                proof {
                    lemma_find_key_absent(old_e, k@);
                    assert(self@ =~= old(self)@.remove(k@));
                }
            },
        }
    }
}

} // verus!
