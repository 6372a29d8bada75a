//! The coordinator: accepts submissions under a concurrency cap, drives the
//! per-task lifecycle, persists every admission, adapts the cap to observed
//! load, and replays unfinished work after a crash.
//!
//! All decisions are made here over plain values; a surrounding runtime
//! performs the work, feeds outcomes back, and supplies the clock and fresh
//! identifiers.

use vstd::prelude::*;
use crate::log::{
    cp_has, cp_idx_of, incomplete_of, lemma_upsert_preserves_other, spec_upsert_meta,
    PersistenceLog,
};
use crate::monitor::{clamp_full, spec_mean, ResourceMonitor, ResourceSnapshot, SystemHardware};
use crate::omnixerror::CoordError;
use crate::queue::{beats, PendingEntry, PendingQueue};
use crate::registry::{
    count_with_status, has_id, ids_with_status, idx_of, lemma_count_le_len, lemma_count_push,
    lemma_count_two, lemma_count_update, lemma_count_zero, lemma_idx_of, lemma_idx_of_push,
    lemma_idx_of_same_ids, lemma_idx_of_unique, lemma_idx_of_update_same_id,
    lemma_ids_with_status_distinct, lemma_ids_with_status_member, meta_of, TaskRegistry,
};
use crate::storage::StorageBackend;
use crate::task::{
    is_terminal, MetaView, ProgressBuffer, TaskMetadata, TaskProgress, TaskRequest, TaskStatus,
};
use crate::wrappers::{fresh_id, now_millis};

verus! {

/// The utilization high water, in hundredths of a percent, at and above
/// which the cap is not raised.
pub const HIGH_WATER: u32 = 7000;

/// Point-in-time counters over the registry.
#[derive(Clone, Copy, PartialEq, Eq, Structural, Debug)]
pub struct Metrics {
    pub active_tasks: usize,
    pub queued_tasks: usize,
    pub completed_tasks: usize,
    pub failed_tasks: usize,
}

/// What every metadata entry satisfies relative to the coordinator clock.
pub open spec fn timestamps_ok(m: MetaView, clock: u64) -> bool {
    &&& m.submitted_at <= clock
    &&& (m.started_at matches Some(t) ==> t <= clock)
    &&& (m.completed_at matches Some(t) ==> t <= clock)
    &&& (m.status == TaskStatus::Queued ==> m.started_at is None && m.completed_at is None)
    &&& ((m.status == TaskStatus::Running || m.status == TaskStatus::Paused)
        ==> m.started_at is Some && m.completed_at is None)
    &&& (is_terminal(m.status) ==> m.started_at is Some && m.completed_at is Some
        && m.started_at.unwrap() <= m.completed_at.unwrap())
}

/// The coordinator's whole state.
pub struct Coordinator<B: StorageBackend> {
    pub registry: TaskRegistry,
    pub pending: PendingQueue,
    pub log: PersistenceLog<B>,
    pub monitor: ResourceMonitor,
    pub cap: usize,
    pub running: usize,
    pub next_ticket: u64,
    pub clock: u64,
    pub shutting_down: bool,
    pub error_log: Vec<(u128, String)>,
}

impl<B: StorageBackend> Coordinator<B> {
    /// The registry's abstract entries.
    pub open spec fn reg(&self) -> Seq<MetaView> {
        self.registry.view_entries()
    }

    /// The queue's abstract entries.
    pub open spec fn que(&self) -> Seq<PendingEntry> {
        self.pending.view_entries()
    }

    /// The recorded errors: one per failed task, in failure order.
    pub open spec fn errors(&self) -> Seq<(u128, Seq<char>)> {
        self.error_log@.map_values(|e: (u128, String)| (e.0, e.1@))
    }

    /// The structural invariant: identifiers are unique, the running count
    /// is what the registry shows, the queue holds exactly the queued
    /// tasks, and timestamps never pass the clock.
    pub open spec fn wf(&self) -> bool {
        &&& self.registry.wf()
        &&& self.pending.wf()
        &&& self.monitor.wf()
        &&& self.log.wf()
        &&& self.cap >= 1
        &&& self.running == count_with_status(self.reg(), TaskStatus::Running)
        &&& forall|j: int| 0 <= j < self.que().len() ==> self.que()[j].ticket < self.next_ticket
        &&& forall|j: int|
            0 <= j < self.que().len() ==> has_id(self.reg(), (#[trigger] self.que()[j]).id)
                && meta_of(self.reg(), self.que()[j].id).status == TaskStatus::Queued && meta_of(
                self.reg(),
                self.que()[j].id,
            ).priority == self.que()[j].priority
        &&& forall|i: int, j: int|
            0 <= i < j < self.que().len() ==> self.que()[i].id != self.que()[j].id
        &&& forall|i: int|
            0 <= i < self.reg().len() && (#[trigger] self.reg()[i]).status == TaskStatus::Queued
                ==> exists|j: int| 0 <= j < self.que().len() && (#[trigger] self.que()[j]).id
                == self.reg()[i].id
        &&& forall|i: int|
            0 <= i < self.reg().len() ==> timestamps_ok(#[trigger] self.reg()[i], self.clock)
    }

    /// The soft bound: no more tasks run than the cap allows.
    pub open spec fn cap_ok(&self) -> bool {
        self.running <= self.cap
    }

    /// A coordinator over the given backend and hardware, with an initial
    /// concurrency cap; a cap of zero is raised to one.
    pub fn new(backend: B, hardware: SystemHardware, initial_cap: usize) -> (r: Coordinator<B>)
        ensures
            r.wf(),
            r.cap_ok(),
            r.reg() == Seq::<MetaView>::empty(),
            r.que() == Seq::<PendingEntry>::empty(),
            r.errors() == Seq::<(u128, Seq<char>)>::empty(),
            r.cap == if initial_cap == 0 {
                1int
            } else {
                initial_cap as int
            },
            !r.shutting_down,
            r.clock == 0,
            r.next_ticket == 0,
            r.running == 0,
            r.log.metas_view() == Seq::<MetaView>::empty(),
            r.log.cancels@ == Seq::<u128>::empty(),
    {
        let cap = if initial_cap == 0 {
            1
        } else {
            initial_cap
        };
        let r = Coordinator {
            registry: TaskRegistry::new(),
            pending: PendingQueue::new(),
            log: PersistenceLog::new(backend),
            monitor: ResourceMonitor::new(hardware),
            cap,
            running: 0,
            next_ticket: 0,
            clock: 0,
            shutting_down: false,
            error_log: Vec::new(),
        };
        proof {
            assert(r.errors() =~= Seq::<(u128, Seq<char>)>::empty());
        }
        r
    }

    /// The clock never runs backwards: the larger of the caller's reading
    /// and what has been seen.
    fn observe(&mut self, now: u64) -> (t: u64)
        ensures
            final(self).clock == t,
            t == if now > old(self).clock {
                now
            } else {
                old(self).clock
            },
            t >= old(self).clock,
            final(self).registry == old(self).registry,
            final(self).pending == old(self).pending,
            final(self).log == old(self).log,
            final(self).monitor == old(self).monitor,
            final(self).cap == old(self).cap,
            final(self).running == old(self).running,
            final(self).next_ticket == old(self).next_ticket,
            final(self).shutting_down == old(self).shutting_down,
            final(self).error_log == old(self).error_log,
    {
        if now > self.clock {
            self.clock = now;
        }
        self.clock
    }

    /// A point-in-time copy of the metadata under `id`.
    pub fn status(&self, id: u128) -> (r: Option<TaskMetadata>)
        ensures
            match r {
                Some(m) => has_id(self.reg(), id) && m@ == meta_of(self.reg(), id),
                None => !has_id(self.reg(), id),
            },
    {
        self.registry.get(id)
    }

    /// Takes a sampling outcome into the monitor; a failed sample keeps the
    /// previous snapshot.
    pub fn sample(&mut self, outcome: Result<ResourceSnapshot, String>) -> (kept: bool)
        requires
            old(self).wf(),
        ensures
            final(self).wf(),
            final(self).cap == old(self).cap,
            final(self).running == old(self).running,
            final(self).reg() == old(self).reg(),
            final(self).que() == old(self).que(),
            final(self).log == old(self).log,
            final(self).errors() == old(self).errors(),
            final(self).clock == old(self).clock,
            final(self).next_ticket == old(self).next_ticket,
            final(self).shutting_down == old(self).shutting_down,
            final(self).monitor.hardware == old(self).monitor.hardware,
            match outcome {
                Ok(sn) => {
                    &&& !kept
                    &&& final(self).monitor.current@.available_memory == sn@.available_memory
                    &&& final(self).monitor.current@.cpu_usage == sn@.cpu_usage.map_values(
                        |u: u32| clamp_full(u),
                    )
                    &&& final(self).monitor.current@.gpu_usage == sn@.gpu_usage.map_values(
                        |u: u32| clamp_full(u),
                    )
                    &&& final(self).monitor.current@.gpu_temperature == sn@.gpu_temperature
                    &&& final(self).monitor.current@.cpu_temperature == sn@.cpu_temperature
                },
                Err(_) => kept && final(self).monitor.current@ == old(self).monitor.current@,
            },
    {
        self.monitor.apply_sample(outcome)
    }

    /// Raises the cap by one when the latest snapshot shows both mean CPU
    /// and mean GPU utilization under the high water; otherwise refuses and
    /// reports the refusal.  In-flight tasks are never affected.
    pub fn accelerate(&mut self) -> (raised: bool)
        requires
            old(self).wf(),
        ensures
            final(self).wf(),
            old(self).cap_ok() ==> final(self).cap_ok(),
            final(self).reg() == old(self).reg(),
            final(self).que() == old(self).que(),
            final(self).running == old(self).running,
            final(self).monitor == old(self).monitor,
            final(self).log == old(self).log,
            final(self).errors() == old(self).errors(),
            final(self).clock == old(self).clock,
            final(self).next_ticket == old(self).next_ticket,
            final(self).shutting_down == old(self).shutting_down,
            raised == (spec_mean(old(self).monitor.current@.cpu_usage) < HIGH_WATER as int
                && spec_mean(old(self).monitor.current@.gpu_usage) < HIGH_WATER as int && old(
                self,
            ).cap < usize::MAX),
            final(self).cap == if raised {
                old(self).cap + 1
            } else {
                old(self).cap as int
            },
    {
        let cpu = self.monitor.current.mean_cpu();
        let gpu = self.monitor.current.mean_gpu();
        if cpu < HIGH_WATER && gpu < HIGH_WATER && self.cap < usize::MAX {
            self.cap = self.cap + 1;
            true
        } else {
            false
        }
    }

    /// Lowers the cap by one, floored at one, and reports whether it moved.
    /// Tasks already running are unaffected, so the bound is soft across a
    /// lowering.
    pub fn decelerate(&mut self) -> (lowered: bool)
        requires
            old(self).wf(),
        ensures
            final(self).wf(),
            final(self).reg() == old(self).reg(),
            final(self).que() == old(self).que(),
            final(self).running == old(self).running,
            final(self).monitor == old(self).monitor,
            final(self).log == old(self).log,
            final(self).errors() == old(self).errors(),
            final(self).clock == old(self).clock,
            final(self).next_ticket == old(self).next_ticket,
            final(self).shutting_down == old(self).shutting_down,
            lowered == (old(self).cap > 1),
            final(self).cap == if lowered {
                old(self).cap - 1
            } else {
                old(self).cap as int
            },
    {
        if self.cap > 1 {
            self.cap = self.cap - 1;
            true
        } else {
            false
        }
    }

    /// Counters over the registry: tasks still active (queued or running),
    /// queued alone, completed, failed.
    pub fn collect_metrics(&self) -> (r: Metrics)
        requires
            self.wf(),
        ensures
            r.active_tasks == count_with_status(self.reg(), TaskStatus::Running)
                + count_with_status(self.reg(), TaskStatus::Queued),
            r.queued_tasks == count_with_status(self.reg(), TaskStatus::Queued),
            r.completed_tasks == count_with_status(self.reg(), TaskStatus::Completed),
            r.failed_tasks == count_with_status(self.reg(), TaskStatus::Failed),
    {
        let n = self.registry.len();
        proof {
            lemma_count_two(self.reg(), TaskStatus::Running, TaskStatus::Queued);
            lemma_count_le_len(self.reg(), TaskStatus::Running);
        }
        let running = self.registry.count_status(TaskStatus::Running);
        let queued = self.registry.count_status(TaskStatus::Queued);
        let completed = self.registry.count_status(TaskStatus::Completed);
        let failed = self.registry.count_status(TaskStatus::Failed);
        Metrics {
            active_tasks: running + queued,
            queued_tasks: queued,
            completed_tasks: completed,
            failed_tasks: failed,
        }
    }
}

/// Under the invariant and the cap bound, the number of running tasks
/// never exceeds the cap at any observed instant.
pub proof fn lemma_running_within_cap<B: StorageBackend>(c: &Coordinator<B>)
    requires
        c.wf(),
        c.cap_ok(),
    ensures
        count_with_status(c.reg(), TaskStatus::Running) <= c.cap,
{
}

/// A task in a terminal state started no later than it ended.
pub proof fn lemma_terminal_ordering<B: StorageBackend>(c: &Coordinator<B>, id: u128)
    requires
        c.wf(),
        has_id(c.reg(), id),
        is_terminal(meta_of(c.reg(), id).status),
    ensures
        meta_of(c.reg(), id).started_at is Some,
        meta_of(c.reg(), id).completed_at is Some,
        meta_of(c.reg(), id).started_at.unwrap() <= meta_of(c.reg(), id).completed_at.unwrap(),
{
    lemma_idx_of(c.reg(), id);
}

/// The metadata a fresh submission is registered under.
pub open spec fn submitted_meta(rv: crate::task::RequestView, id: u128, at: u64) -> MetaView {
    MetaView {
        id,
        submitted_at: at,
        started_at: None,
        completed_at: None,
        dependencies: rv.dependencies,
        gpu_compatible: rv.gpu_compatible,
        status: TaskStatus::Queued,
        complexity: rv.complexity,
        priority: rv.priority,
    }
}

impl<B: StorageBackend> Coordinator<B> {
    /// Admits a task under a caller-chosen fresh identifier.  Admission is
    /// refused while shutting down, and with `CapacityExceeded` when as
    /// many tasks run as the cap allows (or the ticket space is spent);
    /// a refusal changes nothing.  An admission is durably recorded before
    /// it is acknowledged; a persistence failure aborts it and changes
    /// nothing (fail closed).  On success the task is registered queued.
    pub fn submit_with_id(&mut self, req: &TaskRequest, id: u128, now: u64) -> (r: Result<
        u128,
        CoordError,
    >)
        requires
            old(self).wf(),
            !has_id(old(self).reg(), id),
        ensures
            final(self).wf(),
            old(self).cap_ok() ==> final(self).cap_ok(),
            final(self).cap == old(self).cap,
            final(self).running == old(self).running,
            final(self).shutting_down == old(self).shutting_down,
            final(self).errors() == old(self).errors(),
            final(self).log.checkpoints_view() == old(self).log.checkpoints_view(),
            final(self).log.cancels@ == old(self).log.cancels@,
            final(self).log.completed_marks@ == old(self).log.completed_marks@,
            match r {
                Ok(rid) => {
                    &&& rid == id
                    &&& !old(self).shutting_down
                    &&& old(self).running < old(self).cap
                    &&& old(self).next_ticket < u64::MAX
                    &&& final(self).clock == (if now > old(self).clock {
                        now as int
                    } else {
                        old(self).clock as int
                    })
                    &&& final(self).reg() == old(self).reg().push(
                        submitted_meta(req@, id, final(self).clock),
                    )
                    &&& final(self).que() == old(self).que().push(
                        PendingEntry { id, priority: req@.priority, ticket: old(self).next_ticket },
                    )
                    &&& final(self).next_ticket == old(self).next_ticket + 1
                    &&& final(self).log.metas_view() == spec_upsert_meta(
                        old(self).log.metas_view(),
                        submitted_meta(req@, id, final(self).clock),
                    )
                },
                Err(e) => {
                    &&& final(self).reg() == old(self).reg()
                    &&& final(self).que() == old(self).que()
                    &&& final(self).next_ticket == old(self).next_ticket
                    &&& final(self).log.metas_view() == old(self).log.metas_view()
                    &&& final(self).clock == old(self).clock
                    &&& match e {
                        CoordError::TaskCancellationError(_) => old(self).shutting_down,
                        CoordError::CapacityExceeded => !old(self).shutting_down && (old(
                            self,
                        ).running >= old(self).cap || old(self).next_ticket == u64::MAX),
                        CoordError::PersistenceError(_) => !old(self).shutting_down && old(
                            self,
                        ).running < old(self).cap && old(self).next_ticket < u64::MAX,
                        _ => false,
                    }
                },
            },
    {
        if self.shutting_down {
            let mut msg = String::new();
            msg.append("not accepting new submissions");
            return Err(CoordError::TaskCancellationError(msg));
        }
        if self.running >= self.cap || self.next_ticket == u64::MAX {
            return Err(CoordError::CapacityExceeded);
        }
        let eff = if now > self.clock {
            now
        } else {
            self.clock
        };
        let meta = TaskMetadata {
            id,
            submitted_at: eff,
            started_at: None,
            completed_at: None,
            dependencies: crate::task::copy_ids(&req.dependencies),
            gpu_compatible: req.gpu_compatible,
            status: TaskStatus::Queued,
            complexity: req.complexity,
            priority: req.priority,
        };
        let ghost mv = meta@;
        let ghost oldreg = self.reg();
        let ghost oldque = self.que();
        match self.log.record(&meta) {
            Ok(_) => {},
            Err(e) => {
                return Err(e);
            },
        }
        self.clock = eff;
        self.registry.insert(meta);
        proof {
            lemma_idx_of(oldreg, id);
            assert(self.reg() == oldreg.push(mv));
            lemma_count_push(oldreg, TaskStatus::Running, mv);
        }
        let entry = PendingEntry { id, priority: req.priority, ticket: self.next_ticket };
        proof {
            assert forall|j: int| 0 <= j < oldque.len() implies oldque[j].ticket
                < entry.ticket by {}
        }
        self.pending.push(entry);
        self.next_ticket = self.next_ticket + 1;
        proof {
            let newreg = self.reg();
            let newque = self.que();
            assert forall|j: int| 0 <= j < newque.len() implies has_id(
                newreg,
                (#[trigger] newque[j]).id,
            ) && meta_of(newreg, newque[j].id).status == TaskStatus::Queued && meta_of(
                newreg,
                newque[j].id,
            ).priority == newque[j].priority by {
                if j < newque.len() - 1 {
                    assert(newque[j] == oldque[j]);
                    lemma_idx_of(oldreg, oldque[j].id);
                    lemma_idx_of_push(oldreg, mv, oldque[j].id);
                } else {
                    assert(newque[j] == entry);
                    lemma_idx_of_push(oldreg, mv, id);
                    assert(meta_of(newreg, id) == mv);
                }
            }
            assert forall|i: int, j: int| 0 <= i < j < newque.len() implies newque[i].id
                != newque[j].id by {
                if j == newque.len() - 1 {
                    assert(newque[i] == oldque[i]);
                    lemma_idx_of(oldreg, oldque[i].id);
                }
            }
            assert forall|i: int|
                0 <= i < newreg.len() && (#[trigger] newreg[i]).status
                    == TaskStatus::Queued implies exists|j: int|
                0 <= j < newque.len() && (#[trigger] newque[j]).id == newreg[i].id by {
                if i < newreg.len() - 1 {
                    assert(newreg[i] == oldreg[i]);
                    let j0 = choose|j0: int|
                        0 <= j0 < oldque.len() && (#[trigger] oldque[j0]).id == oldreg[i].id;
                    assert(newque[j0].id == newreg[i].id);
                } else {
                    assert(newque[newque.len() - 1].id == newreg[i].id);
                }
            }
            assert forall|i: int| 0 <= i < newreg.len() implies timestamps_ok(
                #[trigger] newreg[i],
                self.clock,
            ) by {
                if i < newreg.len() - 1 {
                    assert(newreg[i] == oldreg[i]);
                    assert(timestamps_ok(oldreg[i], old(self).clock));
                }
            }
        }
        Ok(id)
    }

    /// Admits a task under a fresh random identifier, stamped with the
    /// wall clock.  What holds of the outcome holds whatever the clock and
    /// the identifier source returned: on success exactly one queued entry
    /// joins the registry, the queue and the durable log; a refusal or a
    /// persistence failure admits nothing, and which refusal comes back
    /// says why (cancellation while shutting down, capacity at the cap,
    /// persistence otherwise).
    pub fn submit_task(&mut self, req: &TaskRequest) -> (r: Result<u128, CoordError>)
        requires
            old(self).wf(),
        ensures
            final(self).wf(),
            old(self).cap_ok() ==> final(self).cap_ok(),
            final(self).cap == old(self).cap,
            final(self).running == old(self).running,
            final(self).shutting_down == old(self).shutting_down,
            final(self).errors() == old(self).errors(),
            final(self).log.checkpoints_view() == old(self).log.checkpoints_view(),
            final(self).log.cancels@ == old(self).log.cancels@,
            final(self).log.completed_marks@ == old(self).log.completed_marks@,
            match r {
                Ok(id) => {
                    &&& !old(self).shutting_down
                    &&& old(self).running < old(self).cap
                    &&& old(self).next_ticket < u64::MAX
                    &&& !has_id(old(self).reg(), id)
                    &&& final(self).clock >= old(self).clock
                    &&& final(self).reg() == old(self).reg().push(
                        submitted_meta(req@, id, final(self).clock),
                    )
                    &&& final(self).que() == old(self).que().push(
                        PendingEntry { id, priority: req@.priority, ticket: old(self).next_ticket },
                    )
                    &&& final(self).next_ticket == old(self).next_ticket + 1
                    &&& final(self).log.metas_view() == spec_upsert_meta(
                        old(self).log.metas_view(),
                        submitted_meta(req@, id, final(self).clock),
                    )
                    &&& has_id(final(self).reg(), id)
                    &&& meta_of(final(self).reg(), id).status == TaskStatus::Queued
                },
                Err(e) => {
                    &&& final(self).reg() == old(self).reg()
                    &&& final(self).que() == old(self).que()
                    &&& final(self).next_ticket == old(self).next_ticket
                    &&& final(self).clock == old(self).clock
                    &&& final(self).log.metas_view() == old(self).log.metas_view()
                    &&& match e {
                        CoordError::TaskCancellationError(_) => old(self).shutting_down,
                        CoordError::CapacityExceeded => !old(self).shutting_down && (old(
                            self,
                        ).running >= old(self).cap || old(self).next_ticket == u64::MAX),
                        CoordError::PersistenceError(_) => !old(self).shutting_down && old(
                            self,
                        ).running < old(self).cap && old(self).next_ticket < u64::MAX,
                        _ => false,
                    }
                },
            },
    {
        if self.shutting_down {
            let mut msg = String::new();
            msg.append("not accepting new submissions");
            return Err(CoordError::TaskCancellationError(msg));
        }
        if self.running >= self.cap || self.next_ticket == u64::MAX {
            return Err(CoordError::CapacityExceeded);
        }
        let mut attempts: usize = 0;
        let ghost snap = *self;
        proof {
            assert(snap == *old(self));
        }
        while attempts < 8
            invariant
                *self == snap,
                snap == *old(self),
                snap.wf(),
                !snap.shutting_down,
                snap.running < snap.cap,
                snap.next_ticket < u64::MAX,
            decreases 8 - attempts,
        {
            let id = fresh_id();
            if !self.registry.contains(id) {
                let now = now_millis();
                let ghost oldreg = self.reg();
                let r = self.submit_with_id(req, id, now);
                proof {
                    if r is Ok {
                        lemma_idx_of_push(oldreg, submitted_meta(req@, id, self.clock), id);
                        lemma_idx_of(oldreg, id);
                    }
                }
                return r;
            }
            attempts = attempts + 1;
        }
        let mut msg = String::new();
        msg.append("no unused task identifier was drawn");
        Err(CoordError::PersistenceError(msg))
    }
}

impl<B: StorageBackend> Coordinator<B> {
    /// Starts the queued task that is served next: highest priority first,
    /// ties broken by earlier admission.  Nothing starts while shutting
    /// down, while as many tasks run as the cap allows, or when nothing is
    /// queued.  The started task is marked running and stamped.
    pub fn start_next(&mut self, now: u64) -> (r: Option<u128>)
        requires
            old(self).wf(),
        ensures
            final(self).wf(),
            old(self).cap_ok() ==> final(self).cap_ok(),
            final(self).cap == old(self).cap,
            final(self).shutting_down == old(self).shutting_down,
            final(self).errors() == old(self).errors(),
            final(self).log == old(self).log,
            final(self).next_ticket == old(self).next_ticket,
            match r {
                None => {
                    &&& final(self).reg() == old(self).reg()
                    &&& final(self).que() == old(self).que()
                    &&& final(self).running == old(self).running
                    &&& (old(self).shutting_down || old(self).running >= old(self).cap || old(
                        self,
                    ).que().len() == 0)
                },
                Some(id) => {
                    &&& !old(self).shutting_down
                    &&& old(self).running < old(self).cap
                    &&& old(self).que().len() > 0
                    &&& exists|j: int|
                        0 <= j < old(self).que().len() && (#[trigger] old(self).que()[j]).id
                            == id && final(self).que() == old(self).que().remove(j)
                    &&& forall|k: int|
                        0 <= k < old(self).que().len() && (#[trigger] old(self).que()[k]).id
                            != id ==> !beats(old(self).que()[k], old(self).que()[idx_in_queue(
                            old(self).que(),
                            id,
                        )])
                    &&& has_id(old(self).reg(), id)
                    &&& meta_of(old(self).reg(), id).status == TaskStatus::Queued
                    &&& final(self).clock == (if now > old(self).clock {
                        now as int
                    } else {
                        old(self).clock as int
                    })
                    &&& final(self).reg() == old(self).reg().update(
                        idx_of(old(self).reg(), id),
                        MetaView {
                            status: TaskStatus::Running,
                            started_at: Some(final(self).clock as u64),
                            ..meta_of(old(self).reg(), id)
                        },
                    )
                    &&& final(self).running == old(self).running + 1
                },
            },
    {
        if self.shutting_down {
            return None;
        }
        if self.running >= self.cap {
            return None;
        }
        let ghost oldreg = self.reg();
        let ghost oldque = self.que();
        match self.pending.pop_best() {
            None => None,
            Some(e) => {
                let ghost j = choose|j: int|
                    0 <= j < oldque.len() && oldque[j] == e && self.que() == oldque.remove(j);
                let t = self.observe(now);
                let mopt = self.registry.get(e.id);
                let mut m = match mopt {
                    Some(m) => m,
                    None => {
                        proof {
                            assert(false);
                        }
                        return None;
                    },
                };
                m.status = TaskStatus::Running;
                m.started_at = Some(t);
                let ghost mv = m@;
                let ghost gi = idx_of(oldreg, e.id);
                proof {
                    lemma_idx_of(oldreg, e.id);
                }
                self.registry.insert(m);
                self.running = self.running + 1;
                proof {
                    assert(self.reg() == oldreg.update(gi, mv));
                    lemma_count_update(oldreg, TaskStatus::Running, gi, mv);
                    lemma_idx_of_update_same_id(oldreg, gi, mv, e.id);
                    assert(idx_in_queue(oldque, e.id) == j) by {
                        lemma_idx_in_queue(oldque, j, e.id);
                    }
                    let newreg = self.reg();
                    let newque = self.que();
                    assert forall|k: int|
                        0 <= k < newque.len() implies newque[k].ticket < self.next_ticket
                        && has_id(newreg, (#[trigger] newque[k]).id) && meta_of(
                        newreg,
                        newque[k].id,
                    ).status == TaskStatus::Queued && meta_of(newreg, newque[k].id).priority
                        == newque[k].priority by {
                        let ok = if k < j {
                            k
                        } else {
                            k + 1
                        };
                        assert(newque[k] == oldque[ok]);
                        assert(oldque[ok].id != e.id);
                        lemma_idx_of_update_same_id(oldreg, gi, mv, oldque[ok].id);
                        lemma_idx_of(oldreg, oldque[ok].id);
                        assert(meta_of(newreg, oldque[ok].id) == meta_of(oldreg, oldque[ok].id));
                    }
                    assert forall|a: int, b: int|
                        0 <= a < b < newque.len() implies newque[a].id != newque[b].id by {
                        let oa = if a < j {
                            a
                        } else {
                            a + 1
                        };
                        let ob = if b < j {
                            b
                        } else {
                            b + 1
                        };
                        assert(newque[a] == oldque[oa] && newque[b] == oldque[ob]);
                    }
                    assert forall|i: int|
                        0 <= i < newreg.len() && (#[trigger] newreg[i]).status
                            == TaskStatus::Queued implies exists|k: int|
                        0 <= k < newque.len() && (#[trigger] newque[k]).id == newreg[i].id by {
                        assert(newreg[i] == oldreg[i]);
                        let j0 = choose|j0: int|
                            0 <= j0 < oldque.len() && (#[trigger] oldque[j0]).id == oldreg[i].id;
                        assert(oldque[j0].id != e.id) by {
                            if oldque[j0].id == e.id {
                                assert(oldreg[i].id == e.id);
                                lemma_idx_of(oldreg, e.id);
                                assert(i == gi);
                            }
                        }
                        assert(j0 != j);
                        let k0 = if j0 < j {
                            j0
                        } else {
                            j0 - 1
                        };
                        assert(newque[k0] == oldque[j0]);
                    }
                    assert forall|i: int| 0 <= i < newreg.len() implies timestamps_ok(
                        #[trigger] newreg[i],
                        self.clock,
                    ) by {
                        if i != gi {
                            assert(newreg[i] == oldreg[i]);
                            assert(timestamps_ok(oldreg[i], old(self).clock));
                        } else {
                            assert(newreg[i] == mv);
                            assert(timestamps_ok(meta_of(oldreg, e.id), old(self).clock));
                        }
                    }
                }
                Some(e.id)
            },
        }
    }

    /// Moves the task under `id` out of the running state into terminal
    /// state `st`, stamps its completion, frees its slot, and best-effort
    /// re-records it; reports whether it was running at all.
    fn finish_task(&mut self, id: u128, st: TaskStatus, now: u64) -> (r: bool)
        requires
            old(self).wf(),
            is_terminal(st),
        ensures
            final(self).wf(),
            old(self).cap_ok() ==> final(self).cap_ok(),
            final(self).cap == old(self).cap,
            final(self).shutting_down == old(self).shutting_down,
            final(self).next_ticket == old(self).next_ticket,
            final(self).errors() == old(self).errors(),
            final(self).que() == old(self).que(),
            final(self).log.cancels@ == old(self).log.cancels@,
            final(self).log.metas_view() == old(self).log.metas_view() || (r && final(self).log.metas_view() == spec_upsert_meta(
                old(self).log.metas_view(),
                MetaView {
                    status: st,
                    completed_at: Some(final(self).clock as u64),
                    ..meta_of(old(self).reg(), id)
                },
            )),
            final(self).log.checkpoints_view() == old(self).log.checkpoints_view() || final(self).log.checkpoints_view() == (if cp_has(old(self).log.checkpoints_view(), id) {
                old(self).log.checkpoints_view().remove(
                    cp_idx_of(old(self).log.checkpoints_view(), id),
                )
            } else {
                old(self).log.checkpoints_view()
            }),
            final(self).log.completed_marks@ == old(self).log.completed_marks@ || final(self).log.completed_marks@ == old(self).log.completed_marks@.push(id),
            r == (has_id(old(self).reg(), id) && meta_of(old(self).reg(), id).status
                == TaskStatus::Running),
            if r {
                &&& final(self).clock == (if now > old(self).clock {
                    now as int
                } else {
                    old(self).clock as int
                })
                &&& final(self).reg() == old(self).reg().update(
                    idx_of(old(self).reg(), id),
                    MetaView {
                        status: st,
                        completed_at: Some(final(self).clock as u64),
                        ..meta_of(old(self).reg(), id)
                    },
                )
                &&& final(self).running == old(self).running - 1
            } else {
                &&& final(self).reg() == old(self).reg()
                &&& final(self).running == old(self).running
                &&& final(self).clock == old(self).clock
            },
    {
        let ghost oldreg = self.reg();
        let ghost oldque = self.que();
        let mopt = self.registry.get(id);
        let mut m = match mopt {
            Some(m) => m,
            None => {
                return false;
            },
        };
        if !(m.status == TaskStatus::Running) {
            return false;
        }
        let t = self.observe(now);
        m.status = st;
        m.completed_at = Some(t);
        let ghost mv = m@;
        let ghost gi = idx_of(oldreg, id);
        proof {
            lemma_idx_of(oldreg, id);
        }
        let m2 = m.duplicate();
        self.registry.insert(m);
        proof {
            assert(self.reg() == oldreg.update(gi, mv));
            lemma_count_update(oldreg, TaskStatus::Running, gi, mv);
        }
        self.running = self.running - 1;
        let _ = self.log.record(&m2);
        let _ = self.log.mark_completed(id);
        proof {
            lemma_idx_of_update_same_id(oldreg, gi, mv, id);
            let newreg = self.reg();
            assert forall|k: int|
                0 <= k < oldque.len() implies has_id(newreg, (#[trigger] oldque[k]).id)
                && meta_of(newreg, oldque[k].id).status == TaskStatus::Queued && meta_of(
                newreg,
                oldque[k].id,
            ).priority == oldque[k].priority by {
                assert(oldque[k].id != id) by {
                    if oldque[k].id == id {
                        assert(meta_of(oldreg, id).status == TaskStatus::Queued);
                    }
                }
                lemma_idx_of_update_same_id(oldreg, gi, mv, oldque[k].id);
                lemma_idx_of(oldreg, oldque[k].id);
                assert(meta_of(newreg, oldque[k].id) == meta_of(oldreg, oldque[k].id));
            }
            assert forall|i: int|
                0 <= i < newreg.len() && (#[trigger] newreg[i]).status
                    == TaskStatus::Queued implies exists|j: int|
                0 <= j < oldque.len() && (#[trigger] oldque[j]).id == newreg[i].id by {
                assert(newreg[i] == oldreg[i]);
            }
            assert forall|i: int| 0 <= i < newreg.len() implies timestamps_ok(
                #[trigger] newreg[i],
                self.clock,
            ) by {
                if i != gi {
                    assert(newreg[i] == oldreg[i]);
                    assert(timestamps_ok(oldreg[i], old(self).clock));
                } else {
                    assert(newreg[i] == mv);
                    assert(timestamps_ok(meta_of(oldreg, id), old(self).clock));
                }
            }
        }
        true
    }

    /// A body that returned success: the task moves from running to
    /// completed, with its completion stamped no earlier than its start.
    pub fn complete_task(&mut self, id: u128, now: u64) -> (r: bool)
        requires
            old(self).wf(),
        ensures
            final(self).wf(),
            old(self).cap_ok() ==> final(self).cap_ok(),
            final(self).cap == old(self).cap,
            final(self).shutting_down == old(self).shutting_down,
            final(self).next_ticket == old(self).next_ticket,
            final(self).errors() == old(self).errors(),
            final(self).que() == old(self).que(),
            final(self).log.cancels@ == old(self).log.cancels@,
            r == (has_id(old(self).reg(), id) && meta_of(old(self).reg(), id).status
                == TaskStatus::Running),
            if r {
                &&& final(self).reg() == old(self).reg().update(
                    idx_of(old(self).reg(), id),
                    MetaView {
                        status: TaskStatus::Completed,
                        completed_at: Some(final(self).clock as u64),
                        ..meta_of(old(self).reg(), id)
                    },
                )
                &&& final(self).running == old(self).running - 1
                &&& meta_of(final(self).reg(), id).started_at.unwrap() <= meta_of(
                    final(self).reg(),
                    id,
                ).completed_at.unwrap()
            } else {
                final(self).reg() == old(self).reg() && final(self).running == old(self).running
            },
    {
        let ghost oldreg = self.reg();
        let ghost oldclock = self.clock;
        let r = self.finish_task(id, TaskStatus::Completed, now);
        proof {
            if r {
                let gi = idx_of(oldreg, id);
                lemma_idx_of(oldreg, id);
                let mv = MetaView {
                    status: TaskStatus::Completed,
                    completed_at: Some(self.clock as u64),
                    ..meta_of(oldreg, id)
                };
                lemma_idx_of_update_same_id(oldreg, gi, mv, id);
                assert(meta_of(self.reg(), id) == mv);
                assert(timestamps_ok(oldreg[gi], oldclock));
            }
        }
        r
    }

    /// A body that returned an error: the task moves from running to
    /// failed, and the error is logged exactly once.
    pub fn fail_task(&mut self, id: u128, detail: String, now: u64) -> (r: bool)
        requires
            old(self).wf(),
        ensures
            final(self).wf(),
            old(self).cap_ok() ==> final(self).cap_ok(),
            final(self).cap == old(self).cap,
            final(self).shutting_down == old(self).shutting_down,
            final(self).next_ticket == old(self).next_ticket,
            final(self).que() == old(self).que(),
            final(self).log.cancels@ == old(self).log.cancels@,
            r == (has_id(old(self).reg(), id) && meta_of(old(self).reg(), id).status
                == TaskStatus::Running),
            final(self).errors() == if r {
                old(self).errors().push((id, detail@))
            } else {
                old(self).errors()
            },
            if r {
                &&& final(self).reg() == old(self).reg().update(
                    idx_of(old(self).reg(), id),
                    MetaView {
                        status: TaskStatus::Failed,
                        completed_at: Some(final(self).clock as u64),
                        ..meta_of(old(self).reg(), id)
                    },
                )
                &&& final(self).running == old(self).running - 1
            } else {
                final(self).reg() == old(self).reg() && final(self).running == old(self).running
            },
    {
        let r = self.finish_task(id, TaskStatus::Failed, now);
        if r {
            self.error_log.push((id, detail));
            proof {
                assert(self.errors() =~= self.error_log@.drop_last().map_values(
                    |e: (u128, String)| (e.0, e.1@),
                ).push((id, detail@)));
            }
        }
        r
    }

    /// A body that observed its cancellation signal and stopped: the task
    /// moves from running to cancelled; not a failure, so nothing is
    /// logged.
    pub fn cancel_task(&mut self, id: u128, now: u64) -> (r: bool)
        requires
            old(self).wf(),
        ensures
            final(self).wf(),
            old(self).cap_ok() ==> final(self).cap_ok(),
            final(self).cap == old(self).cap,
            final(self).shutting_down == old(self).shutting_down,
            final(self).next_ticket == old(self).next_ticket,
            final(self).errors() == old(self).errors(),
            final(self).que() == old(self).que(),
            final(self).log.cancels@ == old(self).log.cancels@,
            r == (has_id(old(self).reg(), id) && meta_of(old(self).reg(), id).status
                == TaskStatus::Running),
            if r {
                &&& final(self).reg() == old(self).reg().update(
                    idx_of(old(self).reg(), id),
                    MetaView {
                        status: TaskStatus::Cancelled,
                        completed_at: Some(final(self).clock as u64),
                        ..meta_of(old(self).reg(), id)
                    },
                )
                &&& final(self).running == old(self).running - 1
            } else {
                final(self).reg() == old(self).reg() && final(self).running == old(self).running
            },
    {
        self.finish_task(id, TaskStatus::Cancelled, now)
    }
}

/// Position of the queue entry with identifier `id`, or `-1`.
pub open spec fn idx_in_queue(q: Seq<PendingEntry>, id: u128) -> int
    decreases q.len(),
{
    if q.len() == 0 {
        -1
    } else if q.first().id == id {
        0
    } else {
        let r = idx_in_queue(q.drop_first(), id);
        if r == -1 {
            -1
        } else {
            r + 1
        }
    }
}

/// Where an entry stands, given that identifiers are unique up to it.
pub proof fn lemma_idx_in_queue(q: Seq<PendingEntry>, j: int, id: u128)
    requires
        0 <= j < q.len(),
        q[j].id == id,
        forall|k: int| 0 <= k < j ==> q[k].id != id,
    ensures
        idx_in_queue(q, id) == j,
    decreases j,
{
    if j == 0 {
    } else {
        assert(forall|k: int|
            0 <= k < q.drop_first().len() ==> q.drop_first()[k] == q[k + 1]);
        lemma_idx_in_queue(q.drop_first(), j - 1, id);
    }
}

/// Whether `id` names one of the entries of `inc`.
pub open spec fn from_incomplete(inc: Seq<MetaView>, id: u128) -> bool {
    exists|j: int| 0 <= j < inc.len() && (#[trigger] inc[j]).id == id
}

/// What force-cancellation leaves one entry as.
pub open spec fn force_cancelled(m: MetaView, t: u64) -> MetaView {
    if m.status == TaskStatus::Running {
        MetaView { status: TaskStatus::Cancelled, completed_at: Some(t), ..m }
    } else {
        m
    }
}

impl<B: StorageBackend> Coordinator<B> {
    /// Stops accepting new submissions and durably requests cancellation of
    /// every running task, each exactly once.  The first returned list
    /// holds the fresh signals that went out, pairwise distinct; the second
    /// holds the tasks whose durable request the backend refused, so that
    /// no refusal is silently swallowed: every running task is covered by
    /// one of the two.  Tasks stay running until they acknowledge or are
    /// force-cancelled.  Calling this again changes nothing and signals
    /// nobody.
    pub fn shutdown(&mut self) -> (r: (Vec<u128>, Vec<u128>))
        requires
            old(self).wf(),
        ensures
            final(self).wf(),
            old(self).cap_ok() ==> final(self).cap_ok(),
            final(self).shutting_down,
            final(self).cap == old(self).cap,
            final(self).running == old(self).running,
            final(self).clock == old(self).clock,
            final(self).next_ticket == old(self).next_ticket,
            final(self).reg() == old(self).reg(),
            final(self).que() == old(self).que(),
            final(self).errors() == old(self).errors(),
            final(self).log.metas_view() == old(self).log.metas_view(),
            final(self).log.checkpoints_view() == old(self).log.checkpoints_view(),
            final(self).log.completed_marks@ == old(self).log.completed_marks@,
            final(self).log.cancels@ == old(self).log.cancels@ + r.0@,
            old(self).shutting_down ==> r.0@ == Seq::<u128>::empty() && r.1@ == Seq::<
                u128,
            >::empty() && final(self).log.cancels@ == old(self).log.cancels@,
            forall|k: int|
                0 <= k < r.0@.len() ==> ids_with_status(old(self).reg(), TaskStatus::Running)
                    .contains(#[trigger] r.0@[k]) && !old(self).log.cancels@.contains(r.0@[k]),
            forall|a: int, b: int| 0 <= a < b < r.0@.len() ==> r.0@[a] != r.0@[b],
            forall|k: int|
                0 <= k < r.1@.len() ==> ids_with_status(old(self).reg(), TaskStatus::Running)
                    .contains(#[trigger] r.1@[k]),
            !old(self).shutting_down ==> forall|k: int|
                0 <= k < ids_with_status(old(self).reg(), TaskStatus::Running).len() ==> final(self).log.cancels@.contains(
                    #[trigger] ids_with_status(old(self).reg(), TaskStatus::Running)[k],
                ) || r.1@.contains(ids_with_status(old(self).reg(), TaskStatus::Running)[k]),
    {
        let ghost oldcancels = self.log.cancels@;
        if self.shutting_down {
            let out: Vec<u128> = Vec::new();
            let refused: Vec<u128> = Vec::new();
            proof {
                assert(self.log.cancels@ =~= oldcancels + out@);
            }
            return (out, refused);
        }
        self.shutting_down = true;
        let ids = self.registry.ids_in_status(TaskStatus::Running);
        let mut out: Vec<u128> = Vec::new();
        let mut refused: Vec<u128> = Vec::new();
        let mut i: usize = 0;
        proof {
            assert(self.log.cancels@ =~= oldcancels + out@);
        }
        while i < ids.len()
            invariant
                i <= ids@.len(),
                self.wf(),
                ids@ == ids_with_status(self.reg(), TaskStatus::Running),
                self.log.cancels@ == oldcancels + out@,
                self.log.metas_view() == old(self).log.metas_view(),
                self.log.checkpoints_view() == old(self).log.checkpoints_view(),
                self.log.completed_marks@ == old(self).log.completed_marks@,
                self.registry == old(self).registry,
                self.pending == old(self).pending,
                self.monitor == old(self).monitor,
                self.cap == old(self).cap,
                self.running == old(self).running,
                self.next_ticket == old(self).next_ticket,
                self.clock == old(self).clock,
                self.shutting_down,
                self.error_log == old(self).error_log,
                oldcancels == old(self).log.cancels@,
                forall|k: int|
                    0 <= k < out@.len() ==> ids@.contains(#[trigger] out@[k])
                        && !oldcancels.contains(out@[k]),
                forall|k: int| 0 <= k < refused@.len() ==> ids@.contains(#[trigger] refused@[k]),
                forall|k: int|
                    0 <= k < i ==> self.log.cancels@.contains(#[trigger] ids@[k])
                        || refused@.contains(ids@[k]),
            decreases ids@.len() - i,
        {
            let id = ids[i];
            let ghost precancels = self.log.cancels@;
            let ghost prerefused = refused@;
            match self.log.mark_cancel_requested(id) {
                Ok(fresh) => {
                    if fresh {
                        proof {
                            assert(!precancels.contains(id));
                            assert(!oldcancels.contains(id)) by {
                                if oldcancels.contains(id) {
                                    let w = choose|w: int|
                                        0 <= w < oldcancels.len() && oldcancels[w] == id;
                                    assert(precancels[w] == id);
                                }
                            }
                        }
                        out.push(id);
                        proof {
                            assert(self.log.cancels@ =~= oldcancels + out@);
                            assert(self.log.cancels@.last() == id);
                            assert(self.log.cancels@.contains(id) || refused@.contains(id));
                            assert(refused@ == prerefused);
                        }
                    } else {
                        proof {
                            assert(precancels.contains(id));
                            assert(self.log.cancels@.contains(id) || refused@.contains(id));
                            assert(refused@ == prerefused);
                        }
                    }
                },
                Err(_) => {
                    refused.push(id);
                    proof {
                        assert(refused@.last() == id);
                        assert(self.log.cancels@.contains(id) || refused@.contains(id));
                        assert(self.log.cancels@ == precancels);
                        assert(refused@ == prerefused.push(id));
                    }
                },
            }
            proof {
                assert(self.log.cancels@ == precancels || self.log.cancels@ == precancels.push(
                    id,
                ));
                assert(refused@ == prerefused || refused@ == prerefused.push(id));
                assert forall|k: int| 0 <= k < i + 1 implies self.log.cancels@.contains(
                    #[trigger] ids@[k],
                ) || refused@.contains(ids@[k]) by {
                    if k < i as int {
                        assert(precancels.contains(ids@[k]) || prerefused.contains(ids@[k]));
                        if precancels.contains(ids@[k]) {
                            let w = choose|w: int|
                                0 <= w < precancels.len() && precancels[w] == ids@[k];
                            assert(self.log.cancels@[w] == ids@[k]);
                            assert(self.log.cancels@.contains(ids@[k]));
                        } else {
                            let w = choose|w: int|
                                0 <= w < prerefused.len() && prerefused[w] == ids@[k];
                            assert(refused@[w] == ids@[k]);
                            assert(refused@.contains(ids@[k]));
                        }
                    } else {
                        assert(ids@[k] == id);
                    }
                }
            }
            i = i + 1;
        }
        proof {
            let cs = self.log.cancels@;
            assert forall|a: int, b: int| 0 <= a < b < out@.len() implies out@[a]
                != out@[b] by {
                assert(cs[oldcancels.len() + a] == out@[a]);
                assert(cs[oldcancels.len() + b] == out@[b]);
            }
        }
        (out, refused)
    }

    /// Force-marks every still-running task as cancelled, stamped now: the
    /// end of the drain window.  Afterwards nothing runs.  Each
    /// force-cancelled task's final metadata is then re-recorded durably;
    /// the count of tasks so ended is returned together with those whose
    /// re-record the backend refused, so that no refusal is silently
    /// swallowed.
    pub fn force_cancel_stragglers(&mut self, now: u64) -> (r: (usize, Vec<u128>))
        requires
            old(self).wf(),
        ensures
            final(self).wf(),
            final(self).cap_ok(),
            final(self).cap == old(self).cap,
            final(self).que() == old(self).que(),
            final(self).errors() == old(self).errors(),
            final(self).shutting_down == old(self).shutting_down,
            final(self).next_ticket == old(self).next_ticket,
            final(self).running == 0,
            final(self).log.cancels@ == old(self).log.cancels@,
            final(self).log.checkpoints_view() == old(self).log.checkpoints_view(),
            final(self).log.completed_marks@ == old(self).log.completed_marks@,
            r.0 == old(self).running,
            final(self).clock == (if now > old(self).clock {
                now as int
            } else {
                old(self).clock as int
            }),
            final(self).reg().len() == old(self).reg().len(),
            forall|i: int|
                0 <= i < old(self).reg().len() ==> final(self).reg()[i] == force_cancelled(
                    #[trigger] old(self).reg()[i],
                    final(self).clock as u64,
                ),
            forall|k: int|
                0 <= k < ids_with_status(old(self).reg(), TaskStatus::Running).len() ==> {
                    let fid = #[trigger] ids_with_status(old(self).reg(), TaskStatus::Running)[k];
                    (has_id(final(self).log.metas_view(), fid) && meta_of(
                        final(self).log.metas_view(),
                        fid,
                    ).status == TaskStatus::Cancelled) || r.1@.contains(fid)
                },
            forall|k: int|
                0 <= k < r.1@.len() ==> ids_with_status(old(self).reg(), TaskStatus::Running)
                    .contains(#[trigger] r.1@[k]),
    {
        let t = self.observe(now);
        let ghost oldreg = self.reg();
        let ids = self.registry.ids_in_status(TaskStatus::Running);
        let n = self.registry.len();
        let mut i: usize = 0;
        while i < n
            invariant
                i <= n,
                n == oldreg.len(),
                self.reg().len() == oldreg.len(),
                self.registry.wf(),
                forall|k: int| 0 <= k < oldreg.len() ==> (#[trigger] self.reg()[k]).id
                    == oldreg[k].id,
                forall|k: int| 0 <= k < i ==> self.reg()[k] == force_cancelled(
                    #[trigger] oldreg[k],
                    t,
                ),
                forall|k: int| i <= k < oldreg.len() ==> self.reg()[k] == oldreg[k],
                self.pending == old(self).pending,
                self.log == old(self).log,
                self.monitor == old(self).monitor,
                self.cap == old(self).cap,
                self.running == old(self).running,
                self.next_ticket == old(self).next_ticket,
                self.clock == t,
                t == (if now > old(self).clock {
                    now as int
                } else {
                    old(self).clock as int
                }),
                self.shutting_down == old(self).shutting_down,
                self.error_log == old(self).error_log,
            decreases n - i,
        {
            let m = self.registry.entry_at(i);
            if m.status == TaskStatus::Running {
                let ghost curreg = self.reg();
                let mut m2 = m;
                m2.status = TaskStatus::Cancelled;
                m2.completed_at = Some(t);
                proof {
                    lemma_idx_of_unique(curreg, i as int);
                }
                self.registry.insert(m2);
                proof {
                    assert(self.reg() =~= curreg.update(i as int, m2@));
                }
            }
            i = i + 1;
        }
        let was = self.running;
        self.running = 0;
        proof {
            let newreg = self.reg();
            lemma_count_zero(newreg, TaskStatus::Running);
            assert forall|k: int| 0 <= k < newreg.len() implies newreg[k].status
                != TaskStatus::Running by {
                assert(newreg[k] == force_cancelled(oldreg[k], t));
            }
            let oldque = self.que();
            assert forall|j: int| 0 <= j < oldque.len() implies has_id(
                newreg,
                (#[trigger] oldque[j]).id,
            ) && meta_of(newreg, oldque[j].id).status == TaskStatus::Queued && meta_of(
                newreg,
                oldque[j].id,
            ).priority == oldque[j].priority by {
                lemma_idx_of(oldreg, oldque[j].id);
                lemma_idx_of_same_ids(newreg, oldreg, oldque[j].id);
                let gi = idx_of(oldreg, oldque[j].id);
                assert(meta_of(oldreg, oldque[j].id) == oldreg[gi]);
                assert(newreg[gi] == force_cancelled(oldreg[gi], t));
            }
            assert forall|k: int|
                0 <= k < newreg.len() && (#[trigger] newreg[k]).status
                    == TaskStatus::Queued implies exists|j: int|
                0 <= j < oldque.len() && (#[trigger] oldque[j]).id == newreg[k].id by {
                assert(newreg[k] == force_cancelled(oldreg[k], t));
                assert(oldreg[k].status == TaskStatus::Queued);
                assert(newreg[k].id == oldreg[k].id);
            }
            assert forall|k: int| 0 <= k < newreg.len() implies timestamps_ok(
                #[trigger] newreg[k],
                self.clock,
            ) by {
                assert(newreg[k] == force_cancelled(oldreg[k], t));
                assert(timestamps_ok(oldreg[k], old(self).clock));
            }
        }
        let ghost snap = *self;
        let mut refused: Vec<u128> = Vec::new();
        let mut j: usize = 0;
        proof {
            lemma_ids_with_status_distinct(oldreg, TaskStatus::Running);
            lemma_ids_with_status_member(oldreg, TaskStatus::Running);
        }
        while j < ids.len()
            invariant
                j <= ids@.len(),
                ids@ == ids_with_status(oldreg, TaskStatus::Running),
                self.wf(),
                snap.wf(),
                self.reg().len() == oldreg.len(),
                forall|k: int| 0 <= k < oldreg.len() ==> (#[trigger] self.reg()[k])
                    == force_cancelled(oldreg[k], t),
                forall|a: int, b: int| 0 <= a < b < oldreg.len() ==> oldreg[a].id != oldreg[b].id,
                self.registry == snap.registry,
                self.pending == snap.pending,
                self.monitor == snap.monitor,
                self.cap == snap.cap,
                self.running == snap.running,
                self.next_ticket == snap.next_ticket,
                self.clock == snap.clock,
                self.shutting_down == snap.shutting_down,
                self.error_log == snap.error_log,
                self.log.cancels@ == snap.log.cancels@,
                self.log.checkpoints_view() == snap.log.checkpoints_view(),
                self.log.completed_marks@ == snap.log.completed_marks@,
                forall|k: int|
                    0 <= k < j ==> {
                        let fid = #[trigger] ids@[k];
                        (has_id(self.log.metas_view(), fid) && meta_of(
                            self.log.metas_view(),
                            fid,
                        ).status == TaskStatus::Cancelled) || refused@.contains(fid)
                    },
                forall|k: int| 0 <= k < refused@.len() ==> ids@.contains(#[trigger] refused@[k]),
            decreases ids@.len() - j,
        {
            let id = ids[j];
            let ghost premetas = self.log.metas_view();
            let ghost prerefused = refused@;
            proof {
                lemma_ids_with_status_member(oldreg, TaskStatus::Running);
                lemma_ids_with_status_distinct(oldreg, TaskStatus::Running);
                assert(ids@[j as int] == ids_with_status(oldreg, TaskStatus::Running)[j as int]);
            }
            let mopt = self.registry.get(id);
            match mopt {
                Some(m) => {
                    proof {
                        let gids = ids_with_status(oldreg, TaskStatus::Running);
                        let n0 = choose|n0: int|
                            0 <= n0 < oldreg.len() && (#[trigger] oldreg[n0]).id == gids[j as int]
                                && oldreg[n0].status == TaskStatus::Running;
                        lemma_idx_of(self.reg(), id);
                        assert forall|k: int| 0 <= k < oldreg.len() implies (
                        #[trigger] self.reg()[k]).id == oldreg[k].id by {
                            assert(self.reg()[k] == force_cancelled(oldreg[k], t));
                        }
                        lemma_idx_of_same_ids(self.reg(), oldreg, id);
                        lemma_idx_of(oldreg, id);
                        lemma_idx_of_unique(oldreg, n0);
                        assert(self.reg()[n0] == force_cancelled(oldreg[n0], t));
                        assert(m@.status == TaskStatus::Cancelled);
                    }
                    let ghost mv = m@;
                    match self.log.record(&m) {
                        Ok(_) => {
                            proof {
                                assert(self.log.metas_view() == spec_upsert_meta(premetas, mv));
                                lemma_idx_of(premetas, mv.id);
                                if has_id(premetas, mv.id) {
                                    lemma_idx_of_update_same_id(
                                        premetas,
                                        idx_of(premetas, mv.id),
                                        mv,
                                        mv.id,
                                    );
                                } else {
                                    lemma_idx_of_push(premetas, mv, mv.id);
                                }
                                assert(has_id(self.log.metas_view(), id) && meta_of(
                                    self.log.metas_view(),
                                    id,
                                ).status == TaskStatus::Cancelled);
                            }
                        },
                        Err(_) => {
                            refused.push(id);
                            proof {
                                assert(refused@.last() == id);
                                assert(refused@.contains(id));
                            }
                        },
                    }
                },
                None => {
                    proof {
                        let gids = ids_with_status(oldreg, TaskStatus::Running);
                        let n0 = choose|n0: int|
                            0 <= n0 < oldreg.len() && (#[trigger] oldreg[n0]).id == gids[j as int]
                                && oldreg[n0].status == TaskStatus::Running;
                        lemma_idx_of_unique(oldreg, n0);
                        assert forall|k: int| 0 <= k < oldreg.len() implies (
                        #[trigger] self.reg()[k]).id == oldreg[k].id by {
                            assert(self.reg()[k] == force_cancelled(oldreg[k], t));
                        }
                        lemma_idx_of_same_ids(self.reg(), oldreg, id);
                        assert(false);
                    }
                },
            }
            proof {
                assert forall|k: int| 0 <= k < j + 1 implies {
                    let fid = #[trigger] ids@[k];
                    (has_id(self.log.metas_view(), fid) && meta_of(
                        self.log.metas_view(),
                        fid,
                    ).status == TaskStatus::Cancelled) || refused@.contains(fid)
                } by {
                    let fid = ids@[k];
                    if k < j as int {
                        if has_id(premetas, fid) && meta_of(premetas, fid).status
                            == TaskStatus::Cancelled {
                            if self.log.metas_view() != premetas {
                                assert(fid != ids@[j as int]);
                                lemma_upsert_preserves_other(
                                    premetas,
                                    meta_of(self.log.metas_view(), ids@[j as int]),
                                    fid,
                                );
                                assert(self.log.metas_view() == spec_upsert_meta(
                                    premetas,
                                    meta_of(self.log.metas_view(), ids@[j as int]),
                                ));
                            }
                        } else {
                            let w = choose|w: int|
                                0 <= w < prerefused.len() && prerefused[w] == fid;
                            assert(refused@[w] == fid);
                            assert(refused@.contains(fid));
                        }
                    }
                }
            }
            j = j + 1;
        }
        (was, refused)
    }

    /// Replays unfinished work after a crash: every recorded task left
    /// queued or running is re-submitted once through the ordinary
    /// admission path and stands queued afterwards; finished tasks are not
    /// touched.  The first returned list holds the re-submitted
    /// identifiers, pairwise distinct; the second holds those whose
    /// re-admission the backend refused, so that no refusal is silently
    /// swallowed: every unfinished record is covered by one of the two.
    /// Runs on a freshly constructed coordinator whose log has been seeded
    /// with the records read back from storage.
    pub fn recover_and_resume(&mut self, now: u64) -> (r: (Vec<u128>, Vec<u128>))
        requires
            old(self).wf(),
            old(self).reg().len() == 0,
            !old(self).shutting_down,
        ensures
            final(self).wf(),
            final(self).cap_ok(),
            final(self).cap == old(self).cap,
            final(self).running == 0,
            final(self).shutting_down == old(self).shutting_down,
            final(self).errors() == old(self).errors(),
            final(self).reg().len() == r.0@.len(),
            forall|a: int, b: int| 0 <= a < b < r.0@.len() ==> r.0@[a] != r.0@[b],
            forall|k: int|
                0 <= k < r.0@.len() ==> has_id(final(self).reg(), #[trigger] r.0@[k]) && meta_of(
                    final(self).reg(),
                    r.0@[k],
                ).status == TaskStatus::Queued,
            forall|k: int|
                0 <= k < r.0@.len() ==> from_incomplete(
                    incomplete_of(old(self).log.metas_view()),
                    #[trigger] r.0@[k],
                ),
            forall|k: int|
                0 <= k < r.1@.len() ==> from_incomplete(
                    incomplete_of(old(self).log.metas_view()),
                    #[trigger] r.1@[k],
                ),
            forall|j: int|
                0 <= j < incomplete_of(old(self).log.metas_view()).len() ==> r.0@.contains(
                    (#[trigger] incomplete_of(old(self).log.metas_view())[j]).id,
                ) || r.1@.contains(incomplete_of(old(self).log.metas_view())[j].id),
            r.1@.len() == 0 ==> forall|j: int|
                0 <= j < incomplete_of(old(self).log.metas_view()).len() ==> has_id(
                    final(self).reg(),
                    (#[trigger] incomplete_of(old(self).log.metas_view())[j]).id,
                ) && meta_of(
                    final(self).reg(),
                    incomplete_of(old(self).log.metas_view())[j].id,
                ).status == TaskStatus::Queued,
    {
        let ghost oldlog = self.log.metas_view();
        let inc = self.log.scan_incomplete();
        let ghost incv = incomplete_of(oldlog);
        let mut out: Vec<u128> = Vec::new();
        let mut refused: Vec<u128> = Vec::new();
        let mut i: usize = 0;
        proof {
            lemma_count_zero(self.reg(), TaskStatus::Running);
        }
        while i < inc.len()
            invariant
                i <= inc@.len(),
                inc@.map_values(|m: TaskMetadata| m@) == incv,
                self.wf(),
                self.cap == old(self).cap,
                self.running == 0,
                self.shutting_down == old(self).shutting_down,
                !self.shutting_down,
                self.errors() == old(self).errors(),
                self.reg().len() == out@.len(),
                forall|a: int, b: int| 0 <= a < b < out@.len() ==> out@[a] != out@[b],
                forall|k: int|
                    0 <= k < out@.len() ==> has_id(self.reg(), #[trigger] out@[k]) && meta_of(
                        self.reg(),
                        out@[k],
                    ).status == TaskStatus::Queued,
                forall|n: int|
                    0 <= n < self.reg().len() ==> out@.contains((#[trigger] self.reg()[n]).id),
                forall|k: int|
                    0 <= k < out@.len() ==> from_incomplete(incv, #[trigger] out@[k]),
                forall|k: int|
                    0 <= k < refused@.len() ==> from_incomplete(incv, #[trigger] refused@[k]),
                forall|j: int|
                    0 <= j < i ==> out@.contains((#[trigger] incv[j]).id) || refused@.contains(
                        incv[j].id,
                    ),
            decreases inc@.len() - i,
        {
            let m = &inc[i];
            proof {
                assert(inc@[i as int]@ == incv[i as int]);
            }
            let ghost preout = out@;
            let ghost prerefused = refused@;
            if !self.registry.contains(m.id) {
                let req = TaskRequest {
                    priority: m.priority,
                    complexity: m.complexity,
                    gpu_compatible: m.gpu_compatible,
                    dependencies: crate::task::copy_ids(&m.dependencies),
                };
                let ghost prereg = self.reg();
                match self.submit_with_id(&req, m.id, now) {
                    Ok(id) => {
                        proof {
                            let mv = submitted_meta(req@, id, self.clock);
                            lemma_idx_of_push(prereg, mv, id);
                            lemma_idx_of(prereg, id);
                            assert(has_id(self.reg(), id) && meta_of(self.reg(), id).status
                                == TaskStatus::Queued);
                            assert forall|k: int| 0 <= k < out@.len() implies has_id(
                                self.reg(),
                                #[trigger] out@[k],
                            ) && meta_of(self.reg(), out@[k]).status == TaskStatus::Queued by {
                                lemma_idx_of(prereg, out@[k]);
                                lemma_idx_of_push(prereg, mv, out@[k]);
                            }
                            assert forall|k: int| 0 <= k < out@.len() implies out@[k] != id by {
                                assert(has_id(prereg, out@[k]));
                            }
                        }
                        out.push(id);
                        proof {
                            assert(out@.last() == id);
                            assert(out@.contains(id));
                            assert forall|n: int| 0 <= n < self.reg().len() implies out@.contains(
                                (#[trigger] self.reg()[n]).id,
                            ) by {
                                if n < self.reg().len() - 1 {
                                    assert(self.reg()[n] == prereg[n]);
                                    assert(preout.contains(prereg[n].id));
                                    let w = choose|w: int|
                                        0 <= w < preout.len() && preout[w] == prereg[n].id;
                                    assert(out@[w] == prereg[n].id);
                                } else {
                                    assert(self.reg()[n] == submitted_meta(req@, id, self.clock));
                                }
                            }
                        }
                    },
                    Err(_) => {
                        refused.push(m.id);
                        proof {
                            assert(refused@.last() == incv[i as int].id);
                            assert(refused@.contains(incv[i as int].id));
                        }
                    },
                }
            } else {
                proof {
                    lemma_idx_of(self.reg(), incv[i as int].id);
                    let gi = idx_of(self.reg(), incv[i as int].id);
                    assert(self.reg()[gi].id == incv[i as int].id);
                    assert(out@.contains(incv[i as int].id));
                }
            }
            proof {
                assert forall|j: int| 0 <= j < i + 1 implies out@.contains(
                    (#[trigger] incv[j]).id,
                ) || refused@.contains(incv[j].id) by {
                    if j < i as int {
                        if preout.contains(incv[j].id) {
                            let w = choose|w: int|
                                0 <= w < preout.len() && preout[w] == incv[j].id;
                            assert(out@[w] == incv[j].id);
                        } else {
                            let w = choose|w: int|
                                0 <= w < prerefused.len() && prerefused[w] == incv[j].id;
                            assert(refused@[w] == incv[j].id);
                        }
                    }
                }
            }
            i = i + 1;
        }
        proof {
            assert(incv == incomplete_of(old(self).log.metas_view()));
            if refused@.len() == 0 {
                assert forall|j: int| 0 <= j < incv.len() implies has_id(
                    self.reg(),
                    (#[trigger] incv[j]).id,
                ) && meta_of(self.reg(), incv[j].id).status == TaskStatus::Queued by {
                    assert(out@.contains(incv[j].id));
                    let w = choose|w: int| 0 <= w < out@.len() && out@[w] == incv[j].id;
                    assert(has_id(self.reg(), out@[w]));
                }
            }
        }
        (out, refused)
    }
}

impl<B: StorageBackend> Coordinator<B> {
    /// Admits a task as `submit_task` does and adds the first progress
    /// report to the caller's bounded buffer.  Delivery is best-effort by
    /// construction: a full buffer loses its oldest report and never
    /// stalls admission.
    pub fn submit_with_progress(
        &mut self,
        req: &TaskRequest,
        buffer: &mut ProgressBuffer,
    ) -> (r: Result<u128, CoordError>)
        requires
            old(self).wf(),
            old(buffer).wf(),
        ensures
            final(self).wf(),
            old(self).cap_ok() ==> final(self).cap_ok(),
            final(self).cap == old(self).cap,
            final(self).running == old(self).running,
            final(self).shutting_down == old(self).shutting_down,
            final(self).errors() == old(self).errors(),
            final(buffer).wf(),
            final(buffer).capacity == old(buffer).capacity,
            match r {
                Ok(id) => {
                    &&& !old(self).shutting_down
                    &&& old(self).running < old(self).cap
                    &&& old(self).next_ticket < u64::MAX
                    &&& !has_id(old(self).reg(), id)
                    &&& final(self).clock >= old(self).clock
                    &&& final(self).reg() == old(self).reg().push(
                        submitted_meta(req@, id, final(self).clock),
                    )
                    &&& final(self).que() == old(self).que().push(
                        PendingEntry { id, priority: req@.priority, ticket: old(self).next_ticket },
                    )
                    &&& final(self).next_ticket == old(self).next_ticket + 1
                    &&& final(self).log.metas_view() == spec_upsert_meta(
                        old(self).log.metas_view(),
                        submitted_meta(req@, id, final(self).clock),
                    )
                    &&& has_id(final(self).reg(), id)
                    &&& meta_of(final(self).reg(), id).status == TaskStatus::Queued
                    &&& final(buffer).view_items() == (if old(buffer).view_items().len() < old(
                        buffer,
                    ).capacity {
                        old(buffer).view_items().push(queued_report(id))
                    } else {
                        old(buffer).view_items().skip(1).push(queued_report(id))
                    })
                },
                Err(e) => {
                    &&& final(self).reg() == old(self).reg()
                    &&& final(self).que() == old(self).que()
                    &&& final(self).next_ticket == old(self).next_ticket
                    &&& final(self).clock == old(self).clock
                    &&& final(self).log.metas_view() == old(self).log.metas_view()
                    &&& final(buffer).view_items() == old(buffer).view_items()
                    &&& match e {
                        CoordError::TaskCancellationError(_) => old(self).shutting_down,
                        CoordError::CapacityExceeded => !old(self).shutting_down && (old(
                            self,
                        ).running >= old(self).cap || old(self).next_ticket == u64::MAX),
                        CoordError::PersistenceError(_) => !old(self).shutting_down && old(
                            self,
                        ).running < old(self).cap && old(self).next_ticket < u64::MAX,
                        _ => false,
                    }
                },
            },
    {
        let id = match self.submit_task(req) {
            Ok(id) => id,
            Err(e) => {
                return Err(e);
            },
        };
        buffer.push(
            TaskProgress {
                task_id: id,
                progress_permille: 0,
                status: TaskStatus::Queued,
                message: None,
            },
        );
        Ok(id)
    }
}

/// The first report of a freshly admitted task.
pub open spec fn queued_report(id: u128) -> crate::task::ProgressView {
    crate::task::ProgressView {
        task_id: id,
        progress_permille: 0,
        status: TaskStatus::Queued,
        message: None,
    }
}

} // verus!
