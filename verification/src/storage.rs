//! The durable key-to-bytes capability that persistence writes through, and
//! a verified in-memory implementation of it.
//!
//! Callers supply the durable backend (a disk-backed store, say); nothing is
//! assumed of it beyond its signatures, so every caller contract states what
//! holds whatever the backend does.  A backend must not return before its
//! write is flushed to durable storage.

use vstd::prelude::*;

verus! {

/// Durable key-to-bytes storage.  `store` acknowledges only flushed writes;
/// an error from any operation carries its reason.
pub trait StorageBackend {
    fn store(&mut self, key: &[u8], value: &[u8]) -> Result<(), String>;

    fn retrieve(&self, key: &[u8]) -> Result<Option<Vec<u8>>, String>;

    fn delete(&mut self, key: &[u8]) -> Result<(), String>;
}

/// A cache in front of the durable backend: best-effort key-to-bytes
/// lookaside that callers supply; a miss is not an error.
pub trait RetrievalCache {
    fn get(&self, key: &str) -> Result<Option<Vec<u8>>, String>;

    fn set(&mut self, key: &str, value: &[u8]) -> Result<(), String>;
}

/// Index of the pair with key `k`, or `-1`.
pub open spec fn kv_idx_of(s: Seq<(Seq<u8>, Seq<u8>)>, k: Seq<u8>) -> int
    decreases s.len(),
{
    if s.len() == 0 {
        -1
    } else if s.first().0 == k {
        0
    } else {
        let r = kv_idx_of(s.drop_first(), k);
        if r == -1 {
            -1
        } else {
            r + 1
        }
    }
}

pub open spec fn kv_has(s: Seq<(Seq<u8>, Seq<u8>)>, k: Seq<u8>) -> bool {
    kv_idx_of(s, k) >= 0
}

pub open spec fn kv_value_of(s: Seq<(Seq<u8>, Seq<u8>)>, k: Seq<u8>) -> Seq<u8> {
    s[kv_idx_of(s, k)].1
}

pub proof fn lemma_kv_idx_of(s: Seq<(Seq<u8>, Seq<u8>)>, k: Seq<u8>)
    ensures
        -1 <= kv_idx_of(s, k) < s.len(),
        kv_idx_of(s, k) >= 0 ==> s[kv_idx_of(s, k)].0 == k,
        kv_idx_of(s, k) == -1 ==> forall|i: int| 0 <= i < s.len() ==> s[i].0 != k,
        forall|i: int| 0 <= i < kv_idx_of(s, k) ==> s[i].0 != k,
    decreases s.len(),
{
    if s.len() == 0 {
    } else if s.first().0 == k {
    } else {
        let t = s.drop_first();
        lemma_kv_idx_of(t, k);
        assert forall|i: int| 0 <= i < kv_idx_of(s, k) implies s[i].0 != k by {
            if i > 0 {
                assert(t[i - 1] == s[i]);
            }
        }
        if kv_idx_of(s, k) == -1 {
            assert forall|i: int| 0 <= i < s.len() implies s[i].0 != k by {
                if i > 0 {
                    assert(t[i - 1] == s[i]);
                }
            }
        } else {
            assert(s[kv_idx_of(s, k)] == t[kv_idx_of(t, k)]);
        }
    }
}

/// A key-to-bytes store held in memory: the reference backend, and the one
/// tests run against.
pub struct MemoryBackend {
    pub pairs: Vec<(Vec<u8>, Vec<u8>)>,
}

impl MemoryBackend {
    /// The abstract pairs, in insertion order.
    pub open spec fn view_pairs(&self) -> Seq<(Seq<u8>, Seq<u8>)> {
        self.pairs@.map_values(|p: (Vec<u8>, Vec<u8>)| (p.0@, p.1@))
    }

    /// One pair per key.
    pub open spec fn wf(&self) -> bool {
        forall|i: int, j: int|
            0 <= i < j < self.view_pairs().len() ==> self.view_pairs()[i].0
                != self.view_pairs()[j].0
    }

    pub fn new() -> (r: MemoryBackend)
        ensures
            r.wf(),
            r.view_pairs() == Seq::<(Seq<u8>, Seq<u8>)>::empty(),
    {
        let r = MemoryBackend { pairs: Vec::new() };
        proof {
            assert(r.view_pairs() =~= Seq::<(Seq<u8>, Seq<u8>)>::empty());
        }
        r
    }

    fn find(&self, key: &[u8]) -> (r: Option<usize>)
        ensures
            match r {
                Some(i) => kv_idx_of(self.view_pairs(), key@) == i as int,
                None => kv_idx_of(self.view_pairs(), key@) == -1,
            },
    {
        let ghost s = self.view_pairs();
        proof {
            lemma_kv_idx_of(s, key@);
        }
        let mut i: usize = 0;
        while i < self.pairs.len()
            invariant
                i <= s.len(),
                s == self.view_pairs(),
                -1 <= kv_idx_of(s, key@) < s.len(),
                kv_idx_of(s, key@) >= 0 ==> s[kv_idx_of(s, key@)].0 == key@,
                kv_idx_of(s, key@) == -1 ==> forall|k: int|
                    0 <= k < s.len() ==> s[k].0 != key@,
                forall|k: int| 0 <= k < kv_idx_of(s, key@) ==> s[k].0 != key@,
                forall|k: int| 0 <= k < i ==> s[k].0 != key@,
            decreases s.len() - i,
        {
            if crate::persist::bytes_eq(self.pairs[i].0.as_slice(), key) {
                proof {
                    assert(s[i as int].0 == key@);
                }
                return Some(i);
            }
            i = i + 1;
        }
        None
    }

    /// Stores `value` under `key`, replacing what was there.
    pub fn put(&mut self, key: &[u8], value: &[u8])
        ensures
            old(self).wf() ==> final(self).wf(),
            final(self).view_pairs() == if kv_has(old(self).view_pairs(), key@) {
                old(self).view_pairs().update(
                    kv_idx_of(old(self).view_pairs(), key@),
                    (key@, value@),
                )
            } else {
                old(self).view_pairs().push((key@, value@))
            },
    {
        let ghost s = old(self).view_pairs();
        proof {
            lemma_kv_idx_of(s, key@);
        }
        let mut k: Vec<u8> = Vec::new();
        crate::persist::append_bytes(&mut k, key);
        let mut v: Vec<u8> = Vec::new();
        crate::persist::append_bytes(&mut v, value);
        proof {
            assert(k@ =~= key@);
            assert(v@ =~= value@);
        }
        match self.find(key) {
            Some(i) => {
                self.pairs.set(i, (k, v));
                proof {
                    assert(self.view_pairs() =~= s.update(i as int, (key@, value@)));
                }
            },
            None => {
                self.pairs.push((k, v));
                proof {
                    assert(self.view_pairs() =~= s.push((key@, value@)));
                    if old(self).wf() {
                        let s2 = self.view_pairs();
                        assert forall|a: int, b: int| 0 <= a < b < s2.len() implies s2[a].0
                            != s2[b].0 by {
                            if b < s2.len() - 1 {
                                assert(s2[a] == s[a] && s2[b] == s[b]);
                            } else {
                                assert(s2[a] == s[a]);
                            }
                        }
                    }
                }
            },
        }
    }

    /// The bytes under `key`, when any are stored.
    pub fn get(&self, key: &[u8]) -> (r: Option<Vec<u8>>)
        ensures
            match r {
                Some(v) => kv_has(self.view_pairs(), key@) && v@ == kv_value_of(
                    self.view_pairs(),
                    key@,
                ),
                None => !kv_has(self.view_pairs(), key@),
            },
    {
        proof {
            lemma_kv_idx_of(self.view_pairs(), key@);
        }
        match self.find(key) {
            Some(i) => {
                let mut v: Vec<u8> = Vec::new();
                crate::persist::append_bytes(&mut v, self.pairs[i].1.as_slice());
                proof {
                    assert(v@ =~= self.view_pairs()[i as int].1);
                }
                Some(v)
            },
            None => None,
        }
    }

    /// Drops the pair under `key`, when there is one.
    pub fn remove(&mut self, key: &[u8])
        ensures
            old(self).wf() ==> final(self).wf(),
            final(self).view_pairs() == if kv_has(old(self).view_pairs(), key@) {
                old(self).view_pairs().remove(kv_idx_of(old(self).view_pairs(), key@))
            } else {
                old(self).view_pairs()
            },
    {
        let ghost s = old(self).view_pairs();
        proof {
            lemma_kv_idx_of(s, key@);
        }
        match self.find(key) {
            Some(i) => {
                self.pairs.remove(i);
                proof {
                    assert(self.view_pairs() =~= s.remove(i as int));
                    if old(self).wf() {
                        let s2 = self.view_pairs();
                        assert forall|a: int, b: int| 0 <= a < b < s2.len() implies s2[a].0
                            != s2[b].0 by {
                            let oa = if a < i as int {
                                a
                            } else {
                                a + 1
                            };
                            let ob = if b < i as int {
                                b
                            } else {
                                b + 1
                            };
                            assert(s2[a] == s[oa] && s2[b] == s[ob]);
                        }
                    }
                }
            },
            None => {
                proof {
                    assert(self.view_pairs() =~= s);
                }
            },
        }
    }
}

impl StorageBackend for MemoryBackend {
    fn store(&mut self, key: &[u8], value: &[u8]) -> Result<(), String> {
        self.put(key, value);
        Ok(())
    }

    fn retrieve(&self, key: &[u8]) -> Result<Option<Vec<u8>>, String> {
        Ok(self.get(key))
    }

    fn delete(&mut self, key: &[u8]) -> Result<(), String> {
        self.remove(key);
        Ok(())
    }
}

} // verus!
