//! The pending queue: which queued task starts next.  Higher priority wins;
//! within a priority band, earlier submission wins.

use vstd::prelude::*;

verus! {

/// One queued task: its identifier, its priority, and its admission ticket,
/// which rises with every submission.
#[derive(Clone, Copy, PartialEq, Eq, Structural, Debug)]
pub struct PendingEntry {
    pub id: u128,
    pub priority: u8,
    pub ticket: u64,
}

/// Whether `a` is served before `b`: higher priority first, ties broken by
/// the earlier ticket.
pub open spec fn beats(a: PendingEntry, b: PendingEntry) -> bool {
    a.priority > b.priority || (a.priority == b.priority && a.ticket < b.ticket)
}

/// The queue of tasks waiting to run.
pub struct PendingQueue {
    pub entries: Vec<PendingEntry>,
}

impl PendingQueue {
    /// Tickets are distinct, so the serving order is total.
    pub open spec fn wf(&self) -> bool {
        forall|i: int, j: int|
            0 <= i < j < self.entries@.len() ==> self.entries@[i].ticket
                != self.entries@[j].ticket
    }

    pub open spec fn view_entries(&self) -> Seq<PendingEntry> {
        self.entries@
    }

    pub fn new() -> (r: PendingQueue)
        ensures
            r.wf(),
            r.view_entries() == Seq::<PendingEntry>::empty(),
    {
        let r = PendingQueue { entries: Vec::new() };
        proof {
            assert(r.view_entries() =~= Seq::<PendingEntry>::empty());
        }
        r
    }

    pub fn len(&self) -> (r: usize)
        ensures
            r == self.view_entries().len(),
    {
        self.entries.len()
    }

    /// Adds an entry whose ticket is later than every queued one.
    pub fn push(&mut self, e: PendingEntry)
        requires
            old(self).wf(),
            forall|j: int|
                0 <= j < old(self).view_entries().len() ==> old(self).view_entries()[j].ticket
                    < e.ticket,
        ensures
            final(self).wf(),
            final(self).view_entries() == old(self).view_entries().push(e),
    {
        self.entries.push(e);
        proof {
            let s2 = self.entries@;
            assert forall|i: int, j: int| 0 <= i < j < s2.len() implies s2[i].ticket
                != s2[j].ticket by {
                if j < s2.len() - 1 {
                    assert(s2[i] == old(self).view_entries()[i]);
                    assert(s2[j] == old(self).view_entries()[j]);
                } else {
                    assert(s2[i] == old(self).view_entries()[i]);
                    assert(s2[j] == e);
                }
            }
        }
    }

    /// Takes the entry that is served next: none beats it.  An empty queue
    /// yields nothing and stays as it is.
    pub fn pop_best(&mut self) -> (r: Option<PendingEntry>)
        requires
            old(self).wf(),
        ensures
            final(self).wf(),
            match r {
                Some(e) => {
                    &&& old(self).view_entries().len() > 0
                    &&& exists|i: int|
                        0 <= i < old(self).view_entries().len() && old(self).view_entries()[i]
                            == e && final(self).view_entries() == old(
                            self,
                        ).view_entries().remove(i)
                    &&& forall|j: int|
                        0 <= j < old(self).view_entries().len() && old(self).view_entries()[j]
                            != e ==> beats(#[trigger] old(self).view_entries()[j], e) == false
                },
                None => old(self).view_entries().len() == 0 && final(self).view_entries()
                    == old(self).view_entries(),
            },
    {
        let ghost s = old(self).view_entries();
        let n = self.entries.len();
        if n == 0 {
            return None;
        }
        let mut best: usize = 0;
        let mut i: usize = 1;
        while i < n
            invariant
                best < i <= n,
                n == s.len(),
                s == self.view_entries(),
                self.wf(),
                forall|j: int|
                    0 <= j < i && j != best ==> !beats(#[trigger] s[j], s[best as int]),
            decreases n - i,
        {
            let c = &self.entries[i];
            let b = &self.entries[best];
            if c.priority > b.priority || (c.priority == b.priority && c.ticket < b.ticket) {
                proof {
                    assert forall|j: int|
                        0 <= j < i + 1 && j != i implies !beats(#[trigger] s[j], s[i as int]) by {
                        if j != best {
                            assert(!beats(s[j], s[best as int]));
                        }
                    }
                }
                best = i;
            } else {
                proof {
                    assert(s[i as int].ticket != s[best as int].ticket);
                    assert(!beats(s[i as int], s[best as int]));
                }
            }
            i = i + 1;
        }
        let e = self.entries.remove(best);
        proof {
            assert forall|j: int| 0 <= j < s.len() && s[j] != e implies !beats(
                #[trigger] s[j],
                e,
            ) by {
                if j != best as int {
                } else {
                }
            }
            assert forall|a: int, b: int|
                0 <= a < b < self.entries@.len() implies self.entries@[a].ticket
                != self.entries@[b].ticket by {
                let olda = if a < best as int {
                    a
                } else {
                    a + 1
                };
                let oldb = if b < best as int {
                    b
                } else {
                    b + 1
                };
                assert(self.entries@[a] == s[olda]);
                assert(self.entries@[b] == s[oldb]);
            }
        }
        Some(e)
    }
}

} // verus!
