//! The task registry: the single source of truth for task metadata, keyed
//! by task identifier.  Readers get copies, never live references.

use vstd::prelude::*;
use crate::task::{MetaView, TaskMetadata, TaskStatus};

verus! {

/// Index of the entry with identifier `id`, or `-1`.
pub open spec fn idx_of(s: Seq<MetaView>, id: u128) -> int
    decreases s.len(),
{
    if s.len() == 0 {
        -1
    } else if s.first().id == id {
        0
    } else {
        let r = idx_of(s.drop_first(), id);
        if r == -1 {
            -1
        } else {
            r + 1
        }
    }
}

/// Whether some entry carries identifier `id`.
pub open spec fn has_id(s: Seq<MetaView>, id: u128) -> bool {
    idx_of(s, id) >= 0
}

/// The entry carrying identifier `id`.
pub open spec fn meta_of(s: Seq<MetaView>, id: u128) -> MetaView {
    s[idx_of(s, id)]
}

pub proof fn lemma_idx_of(s: Seq<MetaView>, id: u128)
    ensures
        -1 <= idx_of(s, id) < s.len(),
        idx_of(s, id) >= 0 ==> s[idx_of(s, id)].id == id,
        idx_of(s, id) == -1 ==> forall|k: int| 0 <= k < s.len() ==> s[k].id != id,
        forall|k: int| 0 <= k < idx_of(s, id) ==> s[k].id != id,
    decreases s.len(),
{
    if s.len() == 0 {
    } else if s.first().id == id {
    } else {
        let t = s.drop_first();
        lemma_idx_of(t, id);
        assert forall|k: int| 0 <= k < idx_of(s, id) implies s[k].id != id by {
            if k > 0 {
                assert(t[k - 1] == s[k]);
            }
        }
        if idx_of(s, id) == -1 {
            assert forall|k: int| 0 <= k < s.len() implies s[k].id != id by {
                if k > 0 {
                    assert(t[k - 1] == s[k]);
                }
            }
        } else {
            assert(s[idx_of(s, id)] == t[idx_of(t, id)]);
        }
    }
}

/// How many entries are in state `st`.
pub open spec fn count_with_status(s: Seq<MetaView>, st: TaskStatus) -> nat
    decreases s.len(),
{
    if s.len() == 0 {
        0
    } else {
        count_with_status(s.drop_last(), st) + if s.last().status == st {
            1nat
        } else {
            0nat
        }
    }
}

/// Replacing one entry moves the count by what left and what came.
pub proof fn lemma_count_update(s: Seq<MetaView>, st: TaskStatus, i: int, m: MetaView)
    requires
        0 <= i < s.len(),
    ensures
        count_with_status(s.update(i, m), st) == count_with_status(s, st) - (if s[i].status
            == st {
            1int
        } else {
            0int
        }) + (if m.status == st {
            1int
        } else {
            0int
        }),
    decreases s.len(),
{
    let s2 = s.update(i, m);
    if i == s.len() - 1 {
        assert(s2.drop_last() =~= s.drop_last());
    } else {
        assert(s2.drop_last() =~= s.drop_last().update(i, m));
        lemma_count_update(s.drop_last(), st, i, m);
        assert(s2.last() == s.last());
    }
}

/// Appending one entry grows the count by whether it is in `st`.
pub proof fn lemma_count_push(s: Seq<MetaView>, st: TaskStatus, m: MetaView)
    ensures
        count_with_status(s.push(m), st) == count_with_status(s, st) + (if m.status == st {
            1int
        } else {
            0int
        }),
{
    assert(s.push(m).drop_last() =~= s);
}

/// If no entry is in state `st`, the count is zero, and conversely.
pub proof fn lemma_count_zero(s: Seq<MetaView>, st: TaskStatus)
    ensures
        (count_with_status(s, st) == 0) <==> (forall|k: int|
            0 <= k < s.len() ==> s[k].status != st),
    decreases s.len(),
{
    if s.len() > 0 {
        lemma_count_zero(s.drop_last(), st);
        if count_with_status(s, st) == 0 {
            assert forall|k: int| 0 <= k < s.len() implies s[k].status != st by {
                if k < s.len() - 1 {
                    assert(s.drop_last()[k] == s[k]);
                }
            }
        } else {
            if forall|k: int| 0 <= k < s.len() ==> s[k].status != st {
                assert(forall|k: int|
                    0 <= k < s.drop_last().len() ==> s.drop_last()[k] == s[k]);
            }
        }
    }
}

/// The registry of all tasks ever submitted; one entry per identifier.
pub struct TaskRegistry {
    pub entries: Vec<TaskMetadata>,
}

impl TaskRegistry {
    /// The abstract entries, in insertion order.
    pub open spec fn view_entries(&self) -> Seq<MetaView> {
        self.entries@.map_values(|m: TaskMetadata| m@)
    }

    /// One entry per identifier.
    pub open spec fn wf(&self) -> bool {
        forall|i: int, j: int|
            0 <= i < j < self.view_entries().len() ==> self.view_entries()[i].id
                != self.view_entries()[j].id
    }

    pub fn new() -> (r: TaskRegistry)
        ensures
            r.wf(),
            r.view_entries() == Seq::<MetaView>::empty(),
    {
        let r = TaskRegistry { entries: Vec::new() };
        proof {
            assert(r.view_entries() =~= Seq::<MetaView>::empty());
        }
        r
    }

    /// Where the entry with `id` stands, when it is present.
    fn find(&self, id: u128) -> (r: Option<usize>)
        ensures
            match r {
                Some(i) => idx_of(self.view_entries(), id) == i as int,
                None => idx_of(self.view_entries(), id) == -1,
            },
    {
        let ghost s = self.view_entries();
        let mut i: usize = 0;
        proof {
            lemma_idx_of(s, id);
        }
        while i < self.entries.len()
            invariant
                i <= s.len(),
                s == self.view_entries(),
                -1 <= idx_of(s, id) < s.len(),
                idx_of(s, id) >= 0 ==> s[idx_of(s, id)].id == id,
                idx_of(s, id) == -1 ==> forall|k: int| 0 <= k < s.len() ==> s[k].id != id,
                forall|k: int| 0 <= k < idx_of(s, id) ==> s[k].id != id,
                forall|k: int| 0 <= k < i ==> s[k].id != id,
            decreases s.len() - i,
        {
            if self.entries[i].id == id {
                proof {
                    assert(s[i as int].id == id);
                }
                return Some(i);
            }
            i = i + 1;
        }
        None
    }

    /// Whether `id` is registered.
    pub fn contains(&self, id: u128) -> (r: bool)
        ensures
            r == has_id(self.view_entries(), id),
    {
        match self.find(id) {
            Some(_) => true,
            None => false,
        }
    }

    /// A copy of the metadata under `id`; never a live reference.
    pub fn get(&self, id: u128) -> (r: Option<TaskMetadata>)
        ensures
            match r {
                Some(m) => has_id(self.view_entries(), id) && m@ == meta_of(
                    self.view_entries(),
                    id,
                ),
                None => !has_id(self.view_entries(), id),
            },
    {
        proof {
            lemma_idx_of(self.view_entries(), id);
        }
        match self.find(id) {
            Some(i) => Some(self.entries[i].duplicate()),
            None => None,
        }
    }

    /// Registers `meta` under its identifier: a fresh identifier is
    /// appended, a known one overwritten.
    pub fn insert(&mut self, meta: TaskMetadata)
        requires
            old(self).wf(),
        ensures
            final(self).wf(),
            final(self).view_entries() == if has_id(old(self).view_entries(), meta@.id) {
                old(self).view_entries().update(
                    idx_of(old(self).view_entries(), meta@.id),
                    meta@,
                )
            } else {
                old(self).view_entries().push(meta@)
            },
    {
        let ghost s = old(self).view_entries();
        let ghost mv = meta@;
        proof {
            lemma_idx_of(s, mv.id);
        }
        match self.find(meta.id) {
            Some(i) => {
                self.entries.set(i, meta);
                proof {
                    assert(self.view_entries() =~= s.update(i as int, mv));
                }
            },
            None => {
                self.entries.push(meta);
                proof {
                    assert(self.view_entries() =~= s.push(mv));
                }
            },
        }
    }

    /// Sets the state under `id`; a missing identifier is silently ignored.
    pub fn update_status(&mut self, id: u128, status: TaskStatus)
        requires
            old(self).wf(),
        ensures
            final(self).wf(),
            final(self).view_entries() == if has_id(old(self).view_entries(), id) {
                old(self).view_entries().update(
                    idx_of(old(self).view_entries(), id),
                    MetaView {
                        status,
                        ..meta_of(old(self).view_entries(), id)
                    },
                )
            } else {
                old(self).view_entries()
            },
    {
        let ghost s = old(self).view_entries();
        proof {
            lemma_idx_of(s, id);
        }
        match self.find(id) {
            Some(i) => {
                let mut m = self.entries[i].duplicate();
                m.status = status;
                self.entries.set(i, m);
                proof {
                    assert(self.view_entries() =~= s.update(
                        i as int,
                        MetaView { status, ..meta_of(s, id) },
                    ));
                }
            },
            None => {
                proof {
                    assert(self.view_entries() =~= s);
                }
            },
        }
    }

    /// A point-in-time copy of every entry.
    pub fn iterate(&self) -> (r: Vec<TaskMetadata>)
        ensures
            r@.map_values(|m: TaskMetadata| m@) == self.view_entries(),
    {
        let mut out: Vec<TaskMetadata> = Vec::new();
        let mut i: usize = 0;
        proof {
            assert(out@.map_values(|m: TaskMetadata| m@) =~= self.view_entries().take(0));
        }
        while i < self.entries.len()
            invariant
                i <= self.entries@.len(),
                out@.map_values(|m: TaskMetadata| m@) == self.view_entries().take(i as int),
            decreases self.entries@.len() - i,
        {
            out.push(self.entries[i].duplicate());
            proof {
                assert(out@.map_values(|m: TaskMetadata| m@) =~= out@.drop_last().map_values(
                    |m: TaskMetadata| m@,
                ).push(out@.last()@));
                assert(self.view_entries().take(i + 1) =~= self.view_entries().take(
                    i as int,
                ).push(self.view_entries()[i as int]));
            }
            i = i + 1;
        }
        proof {
            assert(self.view_entries().take(self.entries@.len() as int) =~= self.view_entries());
        }
        out
    }

    /// How many entries stand in state `st`.
    pub fn count_status(&self, st: TaskStatus) -> (r: usize)
        ensures
            r as nat == count_with_status(self.view_entries(), st),
    {
        let ghost s = self.view_entries();
        let mut n: usize = 0;
        let mut i: usize = 0;
        proof {
            assert(count_with_status(s.take(0), st) == 0);
        }
        while i < self.entries.len()
            invariant
                i <= s.len(),
                s == self.view_entries(),
                n as nat == count_with_status(s.take(i as int), st),
                n <= i,
            decreases s.len() - i,
        {
            proof {
                assert(s.take(i + 1).drop_last() =~= s.take(i as int));
                assert(s.take(i + 1).last() == s[i as int]);
            }
            if self.entries[i].status == st {
                n = n + 1;
            }
            i = i + 1;
        }
        proof {
            assert(s.take(s.len() as int) =~= s);
        }
        n
    }
}

/// Appending an entry leaves every index of an old identifier unchanged; a
/// fresh identifier lands at the end.
pub proof fn lemma_idx_of_push(s: Seq<MetaView>, m: MetaView, id: u128)
    ensures
        id != m.id ==> idx_of(s.push(m), id) == idx_of(s, id),
        id == m.id && !has_id(s, id) ==> idx_of(s.push(m), id) == s.len(),
    decreases s.len(),
{
    let s2 = s.push(m);
    assert(idx_of(Seq::<MetaView>::empty(), id) == -1);
    if s.len() == 0 {
        assert(s2.first() == m);
        assert(s2.drop_first() =~= Seq::<MetaView>::empty());
        assert(idx_of(s2.drop_first(), id) == -1);
        if id != m.id {
            assert(idx_of(s2, id) == -1);
        }
    } else {
        assert(s2.first() == s.first());
        assert(s2.drop_first() =~= s.drop_first().push(m));
        lemma_idx_of_push(s.drop_first(), m, id);
        assert(idx_of(s2.drop_first(), id) == idx_of(s.drop_first().push(m), id));
    }
}

/// Overwriting an entry with one of the same identifier moves no index.
pub proof fn lemma_idx_of_update_same_id(s: Seq<MetaView>, i: int, m: MetaView, id: u128)
    requires
        0 <= i < s.len(),
        s[i].id == m.id,
    ensures
        idx_of(s.update(i, m), id) == idx_of(s, id),
    decreases s.len(),
{
    let s2 = s.update(i, m);
    if i == 0 {
        assert(s2.first().id == s.first().id);
        if s.first().id != id {
            assert(s2.drop_first() =~= s.drop_first());
        }
    } else {
        assert(s2.first() == s.first());
        if s.first().id != id {
            assert(s2.drop_first() =~= s.drop_first().update(i - 1, m));
            lemma_idx_of_update_same_id(s.drop_first(), i - 1, m, id);
        }
    }
}

/// A count never passes the length.
pub proof fn lemma_count_le_len(s: Seq<MetaView>, st: TaskStatus)
    ensures
        count_with_status(s, st) <= s.len(),
    decreases s.len(),
{
    if s.len() > 0 {
        lemma_count_le_len(s.drop_last(), st);
    }
}

/// Counts of two different states share the length.
pub proof fn lemma_count_two(s: Seq<MetaView>, a: TaskStatus, b: TaskStatus)
    requires
        a != b,
    ensures
        count_with_status(s, a) + count_with_status(s, b) <= s.len(),
    decreases s.len(),
{
    if s.len() > 0 {
        lemma_count_two(s.drop_last(), a, b);
    }
}

/// The identifiers of the entries in state `st`, in order.
pub open spec fn ids_with_status(s: Seq<MetaView>, st: TaskStatus) -> Seq<u128>
    decreases s.len(),
{
    if s.len() == 0 {
        Seq::empty()
    } else {
        ids_with_status(s.drop_last(), st) + if s.last().status == st {
            seq![s.last().id]
        } else {
            Seq::empty()
        }
    }
}

impl TaskRegistry {
    /// How many entries there are.
    pub fn len(&self) -> (r: usize)
        ensures
            r == self.view_entries().len(),
    {
        self.entries.len()
    }

    /// A copy of the entry at position `i`.
    pub fn entry_at(&self, i: usize) -> (r: TaskMetadata)
        requires
            i < self.view_entries().len(),
        ensures
            r@ == self.view_entries()[i as int],
    {
        self.entries[i].duplicate()
    }

    /// The identifiers of the entries in state `st`, in order.
    pub fn ids_in_status(&self, st: TaskStatus) -> (r: Vec<u128>)
        ensures
            r@ == ids_with_status(self.view_entries(), st),
    {
        let ghost s = self.view_entries();
        let mut out: Vec<u128> = Vec::new();
        let mut i: usize = 0;
        proof {
            assert(out@ =~= ids_with_status(s.take(0), st));
        }
        while i < self.entries.len()
            invariant
                i <= s.len(),
                s == self.view_entries(),
                out@ == ids_with_status(s.take(i as int), st),
            decreases s.len() - i,
        {
            proof {
                assert(s.take(i + 1).drop_last() =~= s.take(i as int));
                assert(s.take(i + 1).last() == s[i as int]);
            }
            if self.entries[i].status == st {
                out.push(self.entries[i].id);
                proof {
                    assert(out@ =~= ids_with_status(s.take(i + 1), st));
                }
            } else {
                proof {
                    assert(out@ =~= ids_with_status(s.take(i + 1), st));
                }
            }
            i = i + 1;
        }
        proof {
            assert(s.take(s.len() as int) =~= s);
        }
        out
    }
}

/// With unique identifiers, the entry at `i` is found at `i`.
pub proof fn lemma_idx_of_unique(s: Seq<MetaView>, i: int)
    requires
        0 <= i < s.len(),
        forall|a: int, b: int| 0 <= a < b < s.len() ==> s[a].id != s[b].id,
    ensures
        idx_of(s, s[i].id) == i,
    decreases i,
{
    if i == 0 {
    } else {
        let t = s.drop_first();
        assert(forall|k: int| 0 <= k < t.len() ==> t[k] == s[k + 1]);
        lemma_idx_of_unique(t, i - 1);
        assert(s.first().id != s[i].id);
    }
}

/// Sequences that agree on identifiers agree on where each one stands.
pub proof fn lemma_idx_of_same_ids(s1: Seq<MetaView>, s2: Seq<MetaView>, id: u128)
    requires
        s1.len() == s2.len(),
        forall|k: int| 0 <= k < s1.len() ==> (#[trigger] s1[k]).id == s2[k].id,
    ensures
        idx_of(s1, id) == idx_of(s2, id),
    decreases s1.len(),
{
    if s1.len() > 0 {
        let t1 = s1.drop_first();
        let t2 = s2.drop_first();
        assert(forall|k: int| 0 <= k < t1.len() ==> t1[k] == s1[k + 1] && t2[k] == s2[k + 1]);
        lemma_idx_of_same_ids(t1, t2, id);
        assert(s1[0].id == s2[0].id);
    }
}

/// Every listed identifier belongs to an entry in that state.
pub proof fn lemma_ids_with_status_member(s: Seq<MetaView>, st: TaskStatus)
    ensures
        forall|k: int|
            0 <= k < ids_with_status(s, st).len() ==> exists|n: int|
                0 <= n < s.len() && (#[trigger] s[n]).id == (#[trigger] ids_with_status(
                    s,
                    st,
                )[k]) && s[n].status == st,
    decreases s.len(),
{
    if s.len() > 0 {
        lemma_ids_with_status_member(s.drop_last(), st);
        let ids = ids_with_status(s, st);
        let prev = ids_with_status(s.drop_last(), st);
        assert forall|k: int| 0 <= k < ids.len() implies exists|n: int|
            0 <= n < s.len() && (#[trigger] s[n]).id == (#[trigger] ids[k]) && s[n].status
            == st by {
            if k < prev.len() {
                assert(ids[k] == prev[k]);
                let n = choose|n: int|
                    0 <= n < s.drop_last().len() && (#[trigger] s.drop_last()[n]).id == prev[k]
                        && s.drop_last()[n].status == st;
                assert(s[n] == s.drop_last()[n]);
            } else {
                assert(s[s.len() - 1].id == ids[k]);
            }
        }
    }
}

/// With unique entry identifiers, the listed identifiers are distinct.
pub proof fn lemma_ids_with_status_distinct(s: Seq<MetaView>, st: TaskStatus)
    requires
        forall|a: int, b: int| 0 <= a < b < s.len() ==> s[a].id != s[b].id,
    ensures
        forall|a: int, b: int|
            0 <= a < b < ids_with_status(s, st).len() ==> ids_with_status(s, st)[a]
                != ids_with_status(s, st)[b],
    decreases s.len(),
{
    if s.len() > 0 {
        let t = s.drop_last();
        assert(forall|k: int| 0 <= k < t.len() ==> t[k] == s[k]);
        lemma_ids_with_status_distinct(t, st);
        lemma_ids_with_status_member(t, st);
        let ids = ids_with_status(s, st);
        let prev = ids_with_status(t, st);
        assert forall|a: int, b: int| 0 <= a < b < ids.len() implies ids[a] != ids[b] by {
            if b < prev.len() {
                assert(ids[a] == prev[a] && ids[b] == prev[b]);
            } else {
                assert(ids[b] == s[s.len() - 1].id);
                assert(ids[a] == prev[a]);
                let n = choose|n: int|
                    0 <= n < t.len() && (#[trigger] t[n]).id == prev[a] && t[n].status == st;
                assert(s[n].id == prev[a]);
                assert(s[n].id != s[s.len() - 1].id);
            }
        }
    }
}

} // verus!
