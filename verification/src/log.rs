//! The persistence log: the durable, append-or-overwrite record of task
//! metadata and checkpoints that recovery replays.
//!
//! Every write goes to the caller-supplied backend before it is
//! acknowledged; a backend failure aborts the operation and leaves the
//! log's view of the world unchanged (fail closed).  The log also keeps an
//! in-memory mirror of what it has recorded, which the contracts speak of.

use vstd::prelude::*;
use vstd::bytes::{lemma_auto_spec_u128_to_from_le_bytes, spec_u128_to_le_bytes, u128_to_le_bytes};
use crate::omnixerror::CoordError;
use crate::persist::{append_bytes, encode_checkpoint, encode_metadata, CheckpointView, PersistedCheckpoint};
use crate::registry::{has_id, idx_of, lemma_idx_of, meta_of};
use crate::storage::StorageBackend;
use crate::task::{MetaView, TaskMetadata, TaskStatus};

verus! {

/// The key tag for a metadata record.
pub const META_TAG: u8 = 1;

/// The key tag for a checkpoint record.
pub const CHECKPOINT_TAG: u8 = 2;

/// The key tag for a cancellation-requested flag.
pub const CANCEL_TAG: u8 = 3;

/// The key tag for a completion mark.
pub const DONE_TAG: u8 = 4;

/// The backend key of a record: its tag, then the task identifier.
pub open spec fn spec_key_for(tag: u8, id: u128) -> Seq<u8> {
    seq![tag] + spec_u128_to_le_bytes(id)
}

fn key_for(tag: u8, id: u128) -> (r: Vec<u8>)
    ensures
        r@ == spec_key_for(tag, id),
{
    let mut out: Vec<u8> = Vec::new();
    out.push(tag);
    let idb = u128_to_le_bytes(id);
    append_bytes(&mut out, idb.as_slice());
    proof {
        assert(out@ =~= spec_key_for(tag, id));
    }
    out
}

/// Whether a task still counts as unfinished work for recovery.
pub open spec fn is_incomplete(m: MetaView) -> bool {
    m.status == TaskStatus::Queued || m.status == TaskStatus::Running
}

/// The entries of `s` that recovery re-submits, in order.
pub open spec fn incomplete_of(s: Seq<MetaView>) -> Seq<MetaView>
    decreases s.len(),
{
    if s.len() == 0 {
        Seq::empty()
    } else {
        incomplete_of(s.drop_last()) + if is_incomplete(s.last()) {
            seq![s.last()]
        } else {
            Seq::empty()
        }
    }
}

/// Index of the checkpoint for task `id`, or `-1`.
pub open spec fn cp_idx_of(s: Seq<CheckpointView>, id: u128) -> int
    decreases s.len(),
{
    if s.len() == 0 {
        -1
    } else if s.first().task_id == id {
        0
    } else {
        let r = cp_idx_of(s.drop_first(), id);
        if r == -1 {
            -1
        } else {
            r + 1
        }
    }
}

/// Whether a checkpoint is held for task `id`.
pub open spec fn cp_has(s: Seq<CheckpointView>, id: u128) -> bool {
    cp_idx_of(s, id) >= 0
}

/// The checkpoint held for task `id`.
pub open spec fn cp_of(s: Seq<CheckpointView>, id: u128) -> CheckpointView {
    s[cp_idx_of(s, id)]
}

pub proof fn lemma_cp_idx_of(s: Seq<CheckpointView>, id: u128)
    ensures
        -1 <= cp_idx_of(s, id) < s.len(),
        cp_idx_of(s, id) >= 0 ==> s[cp_idx_of(s, id)].task_id == id,
        cp_idx_of(s, id) == -1 ==> forall|k: int| 0 <= k < s.len() ==> s[k].task_id != id,
        forall|k: int| 0 <= k < cp_idx_of(s, id) ==> s[k].task_id != id,
    decreases s.len(),
{
    if s.len() == 0 {
    } else if s.first().task_id == id {
    } else {
        let t = s.drop_first();
        lemma_cp_idx_of(t, id);
        assert forall|k: int| 0 <= k < cp_idx_of(s, id) implies s[k].task_id != id by {
            if k > 0 {
                assert(t[k - 1] == s[k]);
            }
        }
        if cp_idx_of(s, id) == -1 {
            assert forall|k: int| 0 <= k < s.len() implies s[k].task_id != id by {
                if k > 0 {
                    assert(t[k - 1] == s[k]);
                }
            }
        } else {
            assert(s[cp_idx_of(s, id)] == t[cp_idx_of(t, id)]);
        }
    }
}

/// The durable log of task metadata, checkpoints, cancellation requests and
/// completion marks.
pub struct PersistenceLog<B: StorageBackend> {
    pub backend: B,
    pub metas: Vec<TaskMetadata>,
    pub checkpoints: Vec<PersistedCheckpoint>,
    pub cancels: Vec<u128>,
    pub completed_marks: Vec<u128>,
}

impl<B: StorageBackend> PersistenceLog<B> {
    /// The recorded metadata, in first-recorded order.
    pub open spec fn metas_view(&self) -> Seq<MetaView> {
        self.metas@.map_values(|m: TaskMetadata| m@)
    }

    /// The recorded checkpoints, in first-recorded order.
    pub open spec fn checkpoints_view(&self) -> Seq<CheckpointView> {
        self.checkpoints@.map_values(|c: PersistedCheckpoint| c@)
    }

    /// One metadata record and at most one checkpoint per identifier, and
    /// at most one cancellation request per identifier.
    pub open spec fn wf(&self) -> bool {
        &&& forall|i: int, j: int|
            0 <= i < j < self.metas_view().len() ==> self.metas_view()[i].id
                != self.metas_view()[j].id
        &&& forall|i: int, j: int|
            0 <= i < j < self.checkpoints_view().len() ==> self.checkpoints_view()[i].task_id
                != self.checkpoints_view()[j].task_id
        &&& forall|i: int, j: int|
            0 <= i < j < self.cancels@.len() ==> self.cancels@[i] != self.cancels@[j]
    }

    /// What an upsert of checkpoint `cv` leaves the checkpoints as.
    pub open spec fn spec_cp_upsert(s: Seq<CheckpointView>, cv: CheckpointView) -> Seq<
        CheckpointView,
    > {
        if cp_has(s, cv.task_id) {
            s.update(cp_idx_of(s, cv.task_id), cv)
        } else {
            s.push(cv)
        }
    }

    /// What an upsert of `mv` leaves the records as.
    pub open spec fn spec_upsert(s: Seq<MetaView>, mv: MetaView) -> Seq<MetaView> {
        spec_upsert_meta(s, mv)
    }

    pub fn new(backend: B) -> (r: PersistenceLog<B>)
        ensures
            r.wf(),
            r.metas_view() == Seq::<MetaView>::empty(),
            r.checkpoints_view() == Seq::<CheckpointView>::empty(),
            r.cancels@ == Seq::<u128>::empty(),
            r.completed_marks@ == Seq::<u128>::empty(),
    {
        let r = PersistenceLog {
            backend,
            metas: Vec::new(),
            checkpoints: Vec::new(),
            cancels: Vec::new(),
            completed_marks: Vec::new(),
        };
        proof {
            assert(r.metas_view() =~= Seq::<MetaView>::empty());
            assert(r.checkpoints_view() =~= Seq::<CheckpointView>::empty());
        }
        r
    }

    fn find_meta(&self, id: u128) -> (r: Option<usize>)
        ensures
            match r {
                Some(i) => idx_of(self.metas_view(), id) == i as int,
                None => idx_of(self.metas_view(), id) == -1,
            },
    {
        let ghost s = self.metas_view();
        proof {
            lemma_idx_of(s, id);
        }
        let mut i: usize = 0;
        while i < self.metas.len()
            invariant
                i <= s.len(),
                s == self.metas_view(),
                -1 <= idx_of(s, id) < s.len(),
                idx_of(s, id) >= 0 ==> s[idx_of(s, id)].id == id,
                idx_of(s, id) == -1 ==> forall|k: int| 0 <= k < s.len() ==> s[k].id != id,
                forall|k: int| 0 <= k < idx_of(s, id) ==> s[k].id != id,
                forall|k: int| 0 <= k < i ==> s[k].id != id,
            decreases s.len() - i,
        {
            if self.metas[i].id == id {
                proof {
                    assert(s[i as int].id == id);
                }
                return Some(i);
            }
            i = i + 1;
        }
        None
    }

    /// Puts `m` into the mirror without touching the backend: how recovery
    /// seeds the log from records read back from durable storage.
    pub fn adopt_metadata(&mut self, m: TaskMetadata)
        requires
            old(self).wf(),
        ensures
            final(self).backend == old(self).backend,
            final(self).wf(),
            final(self).metas_view() == Self::spec_upsert(old(self).metas_view(), m@),
            final(self).checkpoints_view() == old(self).checkpoints_view(),
            final(self).cancels@ == old(self).cancels@,
            final(self).completed_marks@ == old(self).completed_marks@,
    {
        let ghost s = old(self).metas_view();
        proof {
            lemma_idx_of(s, m@.id);
        }
        match self.find_meta(m.id) {
            Some(i) => {
                self.metas.set(i, m);
                proof {
                    assert(self.metas_view() =~= s.update(i as int, m@));
                }
            },
            None => {
                self.metas.push(m);
                proof {
                    assert(self.metas_view() =~= s.push(m@));
                    let s2 = self.metas_view();
                    assert forall|a: int, b: int| 0 <= a < b < s2.len() implies s2[a].id
                        != s2[b].id by {
                        if b < s2.len() - 1 {
                            assert(s2[a] == s[a] && s2[b] == s[b]);
                        } else {
                            assert(s2[a] == s[a]);
                        }
                    }
                }
            },
        }
        proof {
            assert(self.checkpoints_view() =~= old(self).checkpoints_view());
        }
    }

    /// Records `m` durably, then mirrors it.  A backend failure aborts the
    /// record and changes nothing.
    pub fn record(&mut self, m: &TaskMetadata) -> (r: Result<(), CoordError>)
        requires
            old(self).wf(),
        ensures
            final(self).wf(),
            final(self).checkpoints_view() == old(self).checkpoints_view(),
            final(self).cancels@ == old(self).cancels@,
            final(self).completed_marks@ == old(self).completed_marks@,
            match r {
                Ok(_) => final(self).metas_view() == Self::spec_upsert(
                    old(self).metas_view(),
                    m@,
                ),
                Err(e) => final(self).metas_view() == old(self).metas_view() && e matches
                    CoordError::PersistenceError(_),
            },
    {
        let key = key_for(META_TAG, m.id);
        let value = encode_metadata(m);
        match self.backend.store(key.as_slice(), value.as_slice()) {
            Ok(_) => {
                proof {
                    assert(self.metas_view() =~= old(self).metas_view());
                    assert(self.checkpoints_view() =~= old(self).checkpoints_view());
                }
                self.adopt_metadata(m.duplicate());
                proof {
                    assert(self.checkpoints_view() =~= old(self).checkpoints_view());
                }
                Ok(())
            },
            Err(detail) => {
                proof {
                    assert(self.metas_view() =~= old(self).metas_view());
                    assert(self.checkpoints_view() =~= old(self).checkpoints_view());
                }
                Err(CoordError::PersistenceError(detail))
            },
        }
    }

    /// Records a checkpoint durably under the task's checkpoint key, then
    /// mirrors it: a fresh task's checkpoint is appended, a known one
    /// overwritten.  A backend failure aborts the record and changes
    /// nothing.
    pub fn record_checkpoint(&mut self, c: &PersistedCheckpoint) -> (r: Result<(), CoordError>)
        requires
            old(self).wf(),
            c.wf(),
        ensures
            final(self).wf(),
            final(self).metas_view() == old(self).metas_view(),
            final(self).cancels@ == old(self).cancels@,
            final(self).completed_marks@ == old(self).completed_marks@,
            match r {
                Ok(_) => final(self).checkpoints_view() == Self::spec_cp_upsert(
                    old(self).checkpoints_view(),
                    c@,
                ),
                Err(e) => final(self).checkpoints_view() == old(self).checkpoints_view() && e
                    matches CoordError::PersistenceError(_),
            },
    {
        let key = key_for(CHECKPOINT_TAG, c.task_id);
        let value = encode_checkpoint(c);
        match self.backend.store(key.as_slice(), value.as_slice()) {
            Ok(_) => {},
            Err(detail) => {
                proof {
                    assert(self.metas_view() =~= old(self).metas_view());
                    assert(self.checkpoints_view() =~= old(self).checkpoints_view());
                }
                return Err(CoordError::PersistenceError(detail));
            },
        }
        let ghost s = old(self).checkpoints_view();
        let ghost cv = c@;
        proof {
            assert(self.checkpoints_view() =~= s);
            assert(self.metas_view() =~= old(self).metas_view());
            lemma_cp_idx_of(s, cv.task_id);
        }
        match self.find_checkpoint(c.task_id) {
            Some(i) => {
                self.checkpoints.set(i, c.duplicate());
                proof {
                    assert(self.checkpoints_view() =~= s.update(i as int, cv));
                    assert(self.metas_view() =~= old(self).metas_view());
                    let s2 = self.checkpoints_view();
                    assert forall|a: int, b: int| 0 <= a < b < s2.len() implies s2[a].task_id
                        != s2[b].task_id by {
                        lemma_cp_idx_of(s, cv.task_id);
                        if a != i as int {
                            assert(s2[a] == s[a]);
                        }
                        if b != i as int {
                            assert(s2[b] == s[b]);
                        }
                        assert(s[cp_idx_of(s, cv.task_id)].task_id == cv.task_id);
                    }
                }
            },
            None => {
                self.checkpoints.push(c.duplicate());
                proof {
                    assert(self.checkpoints_view() =~= s.push(cv));
                    assert(self.metas_view() =~= old(self).metas_view());
                    let s2 = self.checkpoints_view();
                    assert forall|a: int, b: int| 0 <= a < b < s2.len() implies s2[a].task_id
                        != s2[b].task_id by {
                        lemma_cp_idx_of(s, cv.task_id);
                        if b < s2.len() - 1 {
                            assert(s2[a] == s[a] && s2[b] == s[b]);
                        } else {
                            assert(s2[a] == s[a]);
                        }
                    }
                }
            },
        }
        Ok(())
    }

    fn find_checkpoint(&self, id: u128) -> (r: Option<usize>)
        ensures
            match r {
                Some(i) => cp_idx_of(self.checkpoints_view(), id) == i as int,
                None => cp_idx_of(self.checkpoints_view(), id) == -1,
            },
    {
        let ghost s = self.checkpoints_view();
        proof {
            lemma_cp_idx_of(s, id);
        }
        let mut i: usize = 0;
        while i < self.checkpoints.len()
            invariant
                i <= s.len(),
                s == self.checkpoints_view(),
                -1 <= cp_idx_of(s, id) < s.len(),
                cp_idx_of(s, id) >= 0 ==> s[cp_idx_of(s, id)].task_id == id,
                cp_idx_of(s, id) == -1 ==> forall|k: int|
                    0 <= k < s.len() ==> s[k].task_id != id,
                forall|k: int| 0 <= k < cp_idx_of(s, id) ==> s[k].task_id != id,
                forall|k: int| 0 <= k < i ==> s[k].task_id != id,
            decreases s.len() - i,
        {
            if self.checkpoints[i].task_id == id {
                proof {
                    assert(s[i as int].task_id == id);
                }
                return Some(i);
            }
            i = i + 1;
        }
        None
    }

    /// A copy of the checkpoint held for `id`, when one is recorded.
    pub fn checkpoint_for(&self, id: u128) -> (r: Option<PersistedCheckpoint>)
        ensures
            match r {
                Some(c) => cp_has(self.checkpoints_view(), id) && c@ == cp_of(
                    self.checkpoints_view(),
                    id,
                ),
                None => !cp_has(self.checkpoints_view(), id),
            },
    {
        proof {
            lemma_cp_idx_of(self.checkpoints_view(), id);
        }
        match self.find_checkpoint(id) {
            Some(i) => Some(self.checkpoints[i].duplicate()),
            None => None,
        }
    }

    /// Whether cancellation has been requested for `id`.
    pub fn should_cancel(&self, id: u128) -> (r: bool)
        ensures
            r == self.cancels@.contains(id),
    {
        let mut i: usize = 0;
        while i < self.cancels.len()
            invariant
                i <= self.cancels@.len(),
                forall|k: int| 0 <= k < i ==> self.cancels@[k] != id,
            decreases self.cancels@.len() - i,
        {
            if self.cancels[i] == id {
                return true;
            }
            i = i + 1;
        }
        false
    }

    /// Requests cancellation of `id`, durably, exactly once: a repeated
    /// request changes nothing and reports that no new signal went out.
    pub fn mark_cancel_requested(&mut self, id: u128) -> (r: Result<bool, CoordError>)
        requires
            old(self).wf(),
        ensures
            final(self).wf(),
            final(self).metas_view() == old(self).metas_view(),
            final(self).checkpoints_view() == old(self).checkpoints_view(),
            final(self).completed_marks@ == old(self).completed_marks@,
            match r {
                Ok(fresh) => if old(self).cancels@.contains(id) {
                    !fresh && final(self).cancels@ == old(self).cancels@
                } else {
                    fresh && final(self).cancels@ == old(self).cancels@.push(id)
                },
                Err(e) => final(self).cancels@ == old(self).cancels@ && e matches
                    CoordError::PersistenceError(_),
            },
    {
        if self.should_cancel(id) {
            return Ok(false);
        }
        let key = key_for(CANCEL_TAG, id);
        let value: Vec<u8> = Vec::new();
        match self.backend.store(key.as_slice(), value.as_slice()) {
            Ok(_) => {
                let ghost cs = self.cancels@;
                self.cancels.push(id);
                proof {
                    assert(self.metas_view() =~= old(self).metas_view());
                    assert(self.checkpoints_view() =~= old(self).checkpoints_view());
                    assert(cs =~= old(self).cancels@);
                    let cs2 = self.cancels@;
                    assert forall|a: int, b: int| 0 <= a < b < cs2.len() implies cs2[a]
                        != cs2[b] by {
                        if b < cs2.len() - 1 {
                            assert(cs2[a] == cs[a] && cs2[b] == cs[b]);
                        } else {
                            assert(cs2[a] == cs[a]);
                            assert(!cs.contains(id));
                        }
                    }
                }
                Ok(true)
            },
            Err(detail) => {
                proof {
                    assert(self.metas_view() =~= old(self).metas_view());
                    assert(self.checkpoints_view() =~= old(self).checkpoints_view());
                }
                Err(CoordError::PersistenceError(detail))
            },
        }
    }

    /// Marks `id` completed durably and drops its checkpoint record, which
    /// a finished task no longer needs.
    pub fn mark_completed(&mut self, id: u128) -> (r: Result<(), CoordError>)
        requires
            old(self).wf(),
        ensures
            final(self).wf(),
            final(self).metas_view() == old(self).metas_view(),
            final(self).cancels@ == old(self).cancels@,
            match r {
                Ok(_) => {
                    &&& final(self).completed_marks@ == (if old(
                        self,
                    ).completed_marks@.contains(id) {
                        old(self).completed_marks@
                    } else {
                        old(self).completed_marks@.push(id)
                    })
                    &&& final(self).checkpoints_view() == (if cp_has(
                        old(self).checkpoints_view(),
                        id,
                    ) {
                        old(self).checkpoints_view().remove(
                            cp_idx_of(old(self).checkpoints_view(), id),
                        )
                    } else {
                        old(self).checkpoints_view()
                    })
                },
                Err(e) => final(self).completed_marks@ == old(self).completed_marks@
                    && final(self).checkpoints_view() == old(self).checkpoints_view() && e
                    matches CoordError::PersistenceError(_),
            },
    {
        let key = key_for(DONE_TAG, id);
        let value: Vec<u8> = Vec::new();
        match self.backend.store(key.as_slice(), value.as_slice()) {
            Ok(_) => {},
            Err(detail) => {
                proof {
                    assert(self.metas_view() =~= old(self).metas_view());
                    assert(self.checkpoints_view() =~= old(self).checkpoints_view());
                }
                return Err(CoordError::PersistenceError(detail));
            },
        }
        let ckey = key_for(CHECKPOINT_TAG, id);
        match self.backend.delete(ckey.as_slice()) {
            Ok(_) => {},
            Err(detail) => {
                proof {
                    assert(self.metas_view() =~= old(self).metas_view());
                    assert(self.checkpoints_view() =~= old(self).checkpoints_view());
                }
                return Err(CoordError::PersistenceError(detail));
            },
        }
        let ghost cps = self.checkpoints_view();
        proof {
            assert(cps =~= old(self).checkpoints_view());
            assert(self.metas_view() =~= old(self).metas_view());
            lemma_cp_idx_of(cps, id);
        }
        match self.find_checkpoint(id) {
            Some(ci) => {
                self.checkpoints.remove(ci);
                proof {
                    assert(self.checkpoints_view() =~= cps.remove(ci as int));
                    let s2 = self.checkpoints_view();
                    assert forall|a: int, b: int| 0 <= a < b < s2.len() implies s2[a].task_id
                        != s2[b].task_id by {
                        let oa = if a < ci as int {
                            a
                        } else {
                            a + 1
                        };
                        let ob = if b < ci as int {
                            b
                        } else {
                            b + 1
                        };
                        assert(s2[a] == cps[oa] && s2[b] == cps[ob]);
                    }
                }
            },
            None => {
                proof {
                    assert(self.checkpoints_view() =~= cps);
                }
            },
        }
        let mut i: usize = 0;
        let mut seen = false;
        while i < self.completed_marks.len()
            invariant
                i <= self.completed_marks@.len(),
                seen == exists|k: int| 0 <= k < i && self.completed_marks@[k] == id,
            decreases self.completed_marks@.len() - i,
        {
            if self.completed_marks[i] == id {
                seen = true;
            }
            i = i + 1;
        }
        if !seen {
            self.completed_marks.push(id);
        }
        Ok(())
    }

    /// The recorded tasks still in queued or running state: what recovery
    /// re-submits, in recorded order.
    pub fn scan_incomplete(&self) -> (r: Vec<TaskMetadata>)
        ensures
            r@.map_values(|m: TaskMetadata| m@) == incomplete_of(self.metas_view()),
    {
        let ghost s = self.metas_view();
        let mut out: Vec<TaskMetadata> = Vec::new();
        let mut i: usize = 0;
        proof {
            assert(out@.map_values(|m: TaskMetadata| m@) =~= incomplete_of(s.take(0)));
        }
        while i < self.metas.len()
            invariant
                i <= s.len(),
                s == self.metas_view(),
                out@.map_values(|m: TaskMetadata| m@) == incomplete_of(s.take(i as int)),
            decreases s.len() - i,
        {
            proof {
                assert(s.take(i + 1).drop_last() =~= s.take(i as int));
                assert(s.take(i + 1).last() == s[i as int]);
            }
            let st = self.metas[i].status;
            if st == TaskStatus::Queued || st == TaskStatus::Running {
                out.push(self.metas[i].duplicate());
                proof {
                    assert(out@.map_values(|m: TaskMetadata| m@) =~= out@.drop_last().map_values(
                        |m: TaskMetadata| m@,
                    ).push(out@.last()@));
                    assert(out@.map_values(|m: TaskMetadata| m@) =~= incomplete_of(
                        s.take(i + 1),
                    ));
                }
            } else {
                proof {
                    assert(out@.map_values(|m: TaskMetadata| m@) =~= incomplete_of(
                        s.take(i + 1),
                    ));
                }
            }
            i = i + 1;
        }
        proof {
            assert(s.take(s.len() as int) =~= s);
        }
        out
    }
}

/// An upsert under one identifier leaves every other identifier's record
/// exactly where and as it was.
pub proof fn lemma_upsert_preserves_other(s: Seq<MetaView>, mv: MetaView, id: u128)
    requires
        id != mv.id,
    ensures
        has_id(spec_upsert_meta(s, mv), id) == has_id(s, id),
        has_id(s, id) ==> meta_of(spec_upsert_meta(s, mv), id) == meta_of(s, id),
        has_id(spec_upsert_meta(s, mv), mv.id),
        meta_of(spec_upsert_meta(s, mv), mv.id) == mv,
{
    crate::registry::lemma_idx_of(s, mv.id);
    crate::registry::lemma_idx_of(s, id);
    if has_id(s, mv.id) {
        let i = idx_of(s, mv.id);
        crate::registry::lemma_idx_of_update_same_id(s, i, mv, id);
        crate::registry::lemma_idx_of_update_same_id(s, i, mv, mv.id);
    } else {
        crate::registry::lemma_idx_of_push(s, mv, id);
        crate::registry::lemma_idx_of_push(s, mv, mv.id);
    }
}

/// What an upsert of `mv` leaves a record list as.
pub open spec fn spec_upsert_meta(s: Seq<MetaView>, mv: MetaView) -> Seq<MetaView> {
    if has_id(s, mv.id) {
        s.update(idx_of(s, mv.id), mv)
    } else {
        s.push(mv)
    }
}

} // verus!
