use std::collections::HashMap;

use vstd::prelude::*;

verus! {

broadcast use vstd::std_specs::hash::group_hash_axioms;

/// The abstract state of a share store: for each owning key, the history of
/// its share (first the value set, then one entry per refresh) and a read
/// cursor, the index of the next entry to read.
pub struct Shares {
    pub history: Map<u32, Seq<u32>>,
    pub cursor: Map<u32, nat>,
}

impl Shares {
    /// Every key has a non-empty history and a cursor that is at most its
    /// length.
    pub open spec fn wf(self) -> bool {
        &&& self.history.dom() == self.cursor.dom()
        &&& forall|k: u32| #[trigger]
            self.history.contains_key(k) ==> {
                &&& self.history[k].len() >= 1
                &&& self.cursor[k] <= self.history[k].len()
            }
    }

    /// After `set(key, secret)`: the history of `key` is `[secret]`, read
    /// from its start.
    pub open spec fn set(self, key: u32, secret: u32) -> Shares {
        Shares {
            history: self.history.insert(key, seq![secret]),
            cursor: self.cursor.insert(key, 0),
        }
    }

    /// Whether a read of `key` finds an entry.
    pub open spec fn readable(self, key: u32) -> bool {
        self.history.contains_key(key) && self.cursor[key] < self.history[key].len()
    }

    /// What a read of `key` returns.
    pub open spec fn read_value(self, key: u32) -> Option<u32> {
        if self.readable(key) {
            Some(self.history[key][self.cursor[key] as int])
        } else {
            None
        }
    }

    /// The state after a read of `key`: the cursor moves on by one where an
    /// entry was found.
    pub open spec fn after_read(self, key: u32) -> Shares {
        if self.readable(key) {
            Shares { history: self.history, cursor: self.cursor.insert(key, self.cursor[key] + 1) }
        } else {
            self
        }
    }

    /// After `patch(key, mask)`: the last entry of `key` XOR `mask` is
    /// appended to its history; an unknown key is left alone.
    pub open spec fn patch(self, key: u32, mask: u32) -> Shares {
        if self.history.contains_key(key) {
            let h = self.history[key];
            Shares { history: self.history.insert(key, h.push(h.last() ^ mask)), cursor: self.cursor }
        } else {
            self
        }
    }
}

/// The share store of one peer.
pub struct DB {
    data: HashMap<u32, Vec<u32>>,
    hits: HashMap<u32, usize>,
}

impl DB {
    /// The abstract state of the store.
    pub closed spec fn model(&self) -> Shares {
        Shares {
            history: self.data@.map_values(|v: Vec<u32>| v@),
            cursor: self.hits@.map_values(|c: usize| c as nat),
        }
    }

    pub open spec fn wf(&self) -> bool {
        self.model().wf()
    }

    /// An empty store.
    pub fn new() -> (r: Self)
        ensures
            r.wf(),
            r.model().history == Map::<u32, Seq<u32>>::empty(),
            r.model().cursor == Map::<u32, nat>::empty(),
    {
        let r = DB { data: HashMap::new(), hits: HashMap::new() };
        assert(r.model().history =~= Map::<u32, Seq<u32>>::empty());
        assert(r.model().cursor =~= Map::<u32, nat>::empty());
        r
    }

    /// Starts the history of `key` afresh with the single entry `secret` and
    /// rewinds its cursor.
    pub fn set(&mut self, key: u32, secret: u32)
        requires
            old(self).wf(),
        ensures
            final(self).wf(),
            final(self).model() == old(self).model().set(key, secret),
    {
        let mut v: Vec<u32> = Vec::new();
        v.push(secret);
        assert(v@ =~= seq![secret]);
        self.data.insert(key, v);
        self.hits.insert(key, 0);
        assert(self.model().history =~= old(self).model().history.insert(key, seq![secret]));
        assert(self.model().cursor =~= old(self).model().cursor.insert(key, 0));
    }

    /// Reads the entry of `key` under its cursor and moves the cursor on;
    /// `None` for an unknown key or a history read to its end.
    pub fn get(&mut self, key: u32) -> (r: Option<u32>)
        requires
            old(self).wf(),
        ensures
            final(self).wf(),
            r == old(self).model().read_value(key),
            final(self).model() == old(self).model().after_read(key),
    {
        let idx = match self.hits.get(&key) {
            Some(i) => *i,
            None => {
                return None;
            },
        };
        let val = match self.data.get(&key) {
            Some(v) => {
                if idx < v.len() {
                    Some(v[idx])
                } else {
                    None
                }
            },
            None => None,
        };
        match val {
            Some(x) => {
                assert(self.model().history.contains_key(key));
                assert(self.model().history[key] == self.data@[key]@);
                self.hits.insert(key, idx + 1);
                assert(self.model().cursor =~= old(self).model().cursor.insert(
                    key,
                    old(self).model().cursor[key] + 1,
                ));
                assert(self.model().cursor.dom() =~= old(self).model().cursor.dom());
                assert(forall|k: u32| #[trigger]
                    self.model().history.contains_key(k) ==> self.model().cursor[k]
                        <= self.model().history[k].len());
                Some(x)
            },
            None => None,
        }
    }

    /// Appends the last entry of `key`'s history XOR `mask` to it; does
    /// nothing for an unknown key.
    pub fn patch(&mut self, key: u32, mask: u32)
        requires
            old(self).wf(),
        ensures
            final(self).wf(),
            final(self).model() == old(self).model().patch(key, mask),
    {
        let ghost h = old(self).model().history;
        match self.data.remove(&key) {
            Some(mut v) => {
                assert(h.contains_key(key));
                let last = v[v.len() - 1];
                v.push(last ^ mask);
                self.data.insert(key, v);
                assert(self.model().history =~= h.insert(key, h[key].push(h[key].last() ^ mask)));
            },
            None => {
                assert(self.data@ =~= old(self).data@);
            },
        }
    }
}

/// After `set(k, v0)`, `patch(k, m1)` and `patch(k, m2)`, four reads of `k`
/// return `v0`, `v0 ^ m1`, `v0 ^ m1 ^ m2` and then nothing.
pub proof fn lemma_reads_walk_history(s: Shares, k: u32, v0: u32, m1: u32, m2: u32)
    ensures
        ({
            let s0 = s.set(k, v0).patch(k, m1).patch(k, m2);
            let s1 = s0.after_read(k);
            let s2 = s1.after_read(k);
            let s3 = s2.after_read(k);
            &&& s0.read_value(k) == Some(v0)
            &&& s1.read_value(k) == Some(v0 ^ m1)
            &&& s2.read_value(k) == Some((v0 ^ m1) ^ m2)
            &&& s3.read_value(k) is None
        }),
{
    let s0 = s.set(k, v0).patch(k, m1).patch(k, m2);
    assert(s0.history[k] =~= seq![v0, v0 ^ m1, (v0 ^ m1) ^ m2]);
}

} // verus!
