use xage::coordinator::Coordinator;
use xage::monitor::{ResourceSnapshot, SystemHardware};
use xage::omnixerror::CoordError;
use xage::storage::MemoryBackend;
use xage::task::{ProgressBuffer, TaskMetadata, TaskRequest, TaskStatus};

fn hardware() -> SystemHardware {
    SystemHardware { total_memory: 8 << 30, cpu_cores: 4, gpu_count: 1 }
}

fn coordinator(cap: usize) -> Coordinator<MemoryBackend> {
    Coordinator::new(MemoryBackend::new(), hardware(), cap)
}

fn request(priority: u8) -> TaskRequest {
    TaskRequest { priority, complexity: 1000, gpu_compatible: false, dependencies: Vec::new() }
}

#[test]
fn test_submit_registers_queued_metadata() {
    let mut c = coordinator(2);
    let id = c.submit_with_id(&request(5), 42, 1_000).unwrap();
    assert_eq!(id, 42);
    let m = c.status(42).unwrap();
    assert_eq!(m.status, TaskStatus::Queued);
    assert_eq!(m.priority, 5);
    assert_eq!(m.submitted_at, 1_000);
    assert!(m.started_at.is_none());
    assert!(m.completed_at.is_none());
}

#[test]
fn test_submit_beyond_cap_is_refused_and_mutates_nothing() {
    let mut c = coordinator(1);
    c.submit_with_id(&request(5), 1, 10).unwrap();
    assert_eq!(c.start_next(11), Some(1));
    let r = c.submit_with_id(&request(5), 2, 12);
    assert!(matches!(r, Err(CoordError::CapacityExceeded)));
    assert!(c.status(2).is_none());
    assert_eq!(c.running, 1);
    let m = c.status(1).unwrap();
    assert_eq!(m.status, TaskStatus::Running);
}

#[test]
fn test_success_path_queued_running_completed() {
    let mut c = coordinator(1);
    c.submit_with_id(&request(5), 7, 100).unwrap();
    assert_eq!(c.status(7).unwrap().status, TaskStatus::Queued);
    assert_eq!(c.start_next(200), Some(7));
    let m = c.status(7).unwrap();
    assert_eq!(m.status, TaskStatus::Running);
    assert_eq!(m.started_at, Some(200));
    assert!(c.complete_task(7, 350));
    let m = c.status(7).unwrap();
    assert_eq!(m.status, TaskStatus::Completed);
    assert_eq!(m.completed_at, Some(350));
    assert!(m.started_at.unwrap() <= m.completed_at.unwrap());
    assert_eq!(c.running, 0);
}

#[test]
fn test_failure_path_logs_error_exactly_once() {
    let mut c = coordinator(1);
    c.submit_with_id(&request(5), 9, 100).unwrap();
    c.start_next(150);
    assert!(c.fail_task(9, String::from("device lost"), 300));
    assert_eq!(c.status(9).unwrap().status, TaskStatus::Failed);
    assert_eq!(c.error_log.len(), 1);
    assert_eq!(c.error_log[0].0, 9);
    assert_eq!(c.error_log[0].1, "device lost");
    assert!(!c.fail_task(9, String::from("again"), 301));
    assert_eq!(c.error_log.len(), 1);
}

#[test]
fn test_completed_task_cannot_restart() {
    let mut c = coordinator(1);
    c.submit_with_id(&request(5), 3, 10).unwrap();
    c.start_next(20);
    c.complete_task(3, 30);
    assert!(!c.complete_task(3, 40));
    assert!(!c.fail_task(3, String::from("late"), 41));
    assert!(!c.cancel_task(3, 42));
    assert_eq!(c.status(3).unwrap().status, TaskStatus::Completed);
}

#[test]
fn test_priority_order_with_fifo_ties() {
    let mut c = coordinator(1);
    let priorities: [u8; 5] = [1, 3, 1, 2, 3];
    for (i, p) in priorities.iter().enumerate() {
        c.submit_with_id(&request(*p), 100 + i as u128, 1_000 + i as u64).unwrap();
    }
    let mut begun: Vec<u128> = Vec::new();
    loop {
        match c.start_next(2_000) {
            Some(id) => {
                begun.push(id);
                assert!(c.complete_task(id, 2_001));
            },
            None => break,
        }
    }
    assert_eq!(begun, vec![101, 104, 103, 100, 102]);
}

#[test]
fn test_shutdown_is_idempotent() {
    let mut c = coordinator(2);
    c.submit_with_id(&request(5), 1, 10).unwrap();
    c.submit_with_id(&request(5), 2, 11).unwrap();
    assert!(c.start_next(20).is_some());
    assert!(c.start_next(21).is_some());
    let (first, first_refused) = c.shutdown();
    assert_eq!(first.len(), 2);
    assert!(first.contains(&1) && first.contains(&2));
    assert_ne!(first[0], first[1]);
    assert!(first_refused.is_empty());
    let before_reg: Vec<TaskStatus> =
        vec![c.status(1).unwrap().status, c.status(2).unwrap().status];
    let (second, second_refused) = c.shutdown();
    assert!(second.is_empty());
    assert!(second_refused.is_empty());
    let after_reg: Vec<TaskStatus> =
        vec![c.status(1).unwrap().status, c.status(2).unwrap().status];
    assert_eq!(before_reg, after_reg);
    assert_eq!(c.log.cancels.len(), 2);
}

#[test]
fn test_shutdown_refuses_new_submissions() {
    let mut c = coordinator(2);
    c.shutdown();
    let r = c.submit_with_id(&request(5), 1, 10);
    assert!(matches!(r, Err(CoordError::TaskCancellationError(_))));
    assert!(c.status(1).is_none());
}

#[test]
fn test_force_cancel_stragglers_ends_everything() {
    let mut c = coordinator(2);
    c.submit_with_id(&request(5), 1, 10).unwrap();
    c.submit_with_id(&request(5), 2, 11).unwrap();
    c.start_next(20);
    c.start_next(21);
    c.shutdown();
    let (n, not_recorded) = c.force_cancel_stragglers(500);
    assert_eq!(n, 2);
    assert!(not_recorded.is_empty());
    assert_eq!(c.running, 0);
    assert_eq!(c.status(1).unwrap().status, TaskStatus::Cancelled);
    assert_eq!(c.status(2).unwrap().status, TaskStatus::Cancelled);
    assert_eq!(c.status(1).unwrap().completed_at, Some(500));
    // The forced cancellations reached the durable log.
    let recorded: Vec<TaskStatus> = c.log.metas.iter().map(|m| m.status).collect();
    assert_eq!(recorded.iter().filter(|s| **s == TaskStatus::Cancelled).count(), 2);
}

#[test]
fn test_cooperative_cancel_acknowledgement() {
    let mut c = coordinator(1);
    c.submit_with_id(&request(5), 4, 10).unwrap();
    c.start_next(20);
    c.shutdown();
    assert!(c.cancel_task(4, 30));
    assert_eq!(c.status(4).unwrap().status, TaskStatus::Cancelled);
    assert_eq!(c.running, 0);
}

fn persisted_meta(id: u128, status: TaskStatus) -> TaskMetadata {
    let started = match status {
        TaskStatus::Queued => None,
        _ => Some(20),
    };
    let completed = match status {
        TaskStatus::Completed => Some(30),
        _ => None,
    };
    TaskMetadata {
        id,
        submitted_at: 10,
        started_at: started,
        completed_at: completed,
        dependencies: Vec::new(),
        gpu_compatible: false,
        status,
        complexity: 1000,
        priority: 5,
    }
}

#[test]
fn test_recovery_resubmits_exactly_the_unfinished() {
    let mut c = coordinator(2);
    c.log.adopt_metadata(persisted_meta(1, TaskStatus::Running));
    c.log.adopt_metadata(persisted_meta(2, TaskStatus::Queued));
    c.log.adopt_metadata(persisted_meta(3, TaskStatus::Completed));
    let (resubmitted, refused) = c.recover_and_resume(1_000);
    assert_eq!(resubmitted.len(), 2);
    assert!(refused.is_empty());
    assert!(resubmitted.contains(&1) && resubmitted.contains(&2));
    assert_eq!(c.status(1).unwrap().status, TaskStatus::Queued);
    assert_eq!(c.status(2).unwrap().status, TaskStatus::Queued);
    assert!(c.status(3).is_none());
    assert_eq!(c.running, 0);
}

#[test]
fn test_recovered_tasks_run_again() {
    let mut c = coordinator(1);
    c.log.adopt_metadata(persisted_meta(1, TaskStatus::Running));
    let _ = c.recover_and_resume(1_000);
    assert_eq!(c.start_next(1_100), Some(1));
    assert!(c.complete_task(1, 1_200));
    assert_eq!(c.status(1).unwrap().status, TaskStatus::Completed);
}

fn snapshot(cpu: u32, gpu: u32) -> ResourceSnapshot {
    ResourceSnapshot::new(4 << 30, vec![cpu, cpu], vec![gpu], vec![4_500], 5_500)
}

#[test]
fn test_accelerate_below_high_water_raises_cap() {
    let mut c = coordinator(3);
    c.sample(Ok(snapshot(5_000, 5_000)));
    assert!(c.accelerate());
    assert_eq!(c.cap, 4);
}

#[test]
fn test_accelerate_at_high_usage_is_a_no_op() {
    let mut c = coordinator(3);
    c.sample(Ok(snapshot(8_500, 8_500)));
    assert!(!c.accelerate());
    assert_eq!(c.cap, 3);
}

#[test]
fn test_decelerate_floors_at_one() {
    let mut c = coordinator(2);
    assert!(c.decelerate());
    assert_eq!(c.cap, 1);
    assert!(!c.decelerate());
    assert_eq!(c.cap, 1);
}

#[test]
fn test_failed_sample_keeps_previous_snapshot() {
    let mut c = coordinator(1);
    c.sample(Ok(snapshot(5_000, 5_000)));
    let kept = c.sample(Err(String::from("device query failed")));
    assert!(kept);
    assert_eq!(c.monitor.current.cpu_usage, vec![5_000, 5_000]);
    assert!(c.accelerate());
}

#[test]
fn test_collect_metrics_counts_states() {
    let mut c = coordinator(2);
    c.submit_with_id(&request(5), 1, 10).unwrap();
    c.submit_with_id(&request(5), 2, 11).unwrap();
    c.submit_with_id(&request(5), 3, 12).unwrap();
    c.start_next(20);
    c.complete_task(1, 30);
    c.start_next(40);
    c.fail_task(2, String::from("boom"), 50);
    let m = c.collect_metrics();
    assert_eq!(m.queued_tasks, 1);
    assert_eq!(m.active_tasks, 1);
    assert_eq!(m.completed_tasks, 1);
    assert_eq!(m.failed_tasks, 1);
}

#[test]
fn test_clock_never_runs_backwards() {
    let mut c = coordinator(1);
    c.submit_with_id(&request(5), 1, 1_000).unwrap();
    c.start_next(900);
    assert_eq!(c.status(1).unwrap().started_at, Some(1_000));
    c.complete_task(1, 500);
    let m = c.status(1).unwrap();
    assert_eq!(m.completed_at, Some(1_000));
    assert!(m.started_at.unwrap() <= m.completed_at.unwrap());
}

#[test]
fn test_submit_with_progress_reports_admission() {
    let mut c = coordinator(2);
    let mut buffer = ProgressBuffer::new(4);
    let id = c.submit_with_progress(&request(5), &mut buffer).unwrap();
    let report = buffer.pop_front().unwrap();
    assert_eq!(report.task_id, id);
    assert_eq!(report.status, TaskStatus::Queued);
    assert_eq!(report.progress_permille, 0);
}

/// A backend whose durable writes always fail: what fail-closed admission
/// is tested against.
struct BrokenBackend;

impl xage::storage::StorageBackend for BrokenBackend {
    fn store(&mut self, _key: &[u8], _value: &[u8]) -> Result<(), String> {
        Err(String::from("disk detached"))
    }

    fn retrieve(&self, _key: &[u8]) -> Result<Option<Vec<u8>>, String> {
        Err(String::from("disk detached"))
    }

    fn delete(&mut self, _key: &[u8]) -> Result<(), String> {
        Err(String::from("disk detached"))
    }
}

#[test]
fn test_persistence_failure_fails_submission_closed() {
    let mut c = Coordinator::new(BrokenBackend, hardware(), 2);
    let r = c.submit_with_id(&request(5), 1, 10);
    match r {
        Err(CoordError::PersistenceError(detail)) => {
            assert_eq!(detail, "disk detached");
        },
        _ => panic!("a failed durable write must abort the submission"),
    }
    assert!(c.status(1).is_none());
    assert_eq!(c.collect_metrics().queued_tasks, 0);
}

#[test]
fn test_cap_decrease_overshoot_is_soft() {
    let mut c = coordinator(2);
    c.submit_with_id(&request(5), 1, 10).unwrap();
    c.submit_with_id(&request(5), 2, 11).unwrap();
    c.submit_with_id(&request(5), 3, 12).unwrap();
    c.start_next(20);
    c.start_next(21);
    assert!(c.decelerate());
    // The two in-flight tasks keep running past the lowered cap...
    assert_eq!(c.running, 2);
    assert_eq!(c.cap, 1);
    // ...but nothing new starts until the count is back under it.
    assert!(c.start_next(30).is_none());
    c.complete_task(1, 40);
    c.complete_task(2, 41);
    assert_eq!(c.start_next(50), Some(3));
}

#[test]
fn test_submission_is_durably_recorded() {
    let mut c = coordinator(1);
    c.submit_with_id(&request(5), 8, 10).unwrap();
    assert_eq!(c.log.metas.len(), 1);
    assert_eq!(c.log.metas[0].id, 8);
    assert_eq!(c.log.metas[0].status, TaskStatus::Queued);
    // A refusal records nothing.
    c.start_next(11);
    c.submit_with_id(&request(5), 9, 12).unwrap_err();
    assert_eq!(c.log.metas.len(), 1);
}

#[test]
fn test_recovery_reports_refused_entries() {
    let mut c = Coordinator::new(BrokenBackend, hardware(), 2);
    c.log.adopt_metadata(persisted_meta(1, TaskStatus::Running));
    let (resubmitted, refused) = c.recover_and_resume(1_000);
    assert!(resubmitted.is_empty());
    assert_eq!(refused, vec![1]);
    assert!(c.status(1).is_none());
}

/// A backend that can be switched to refuse all writes.
struct BrokenMemory {
    broken: bool,
    inner: MemoryBackend,
}

impl xage::storage::StorageBackend for BrokenMemory {
    fn store(&mut self, key: &[u8], value: &[u8]) -> Result<(), String> {
        if self.broken {
            Err(String::from("write refused"))
        } else {
            self.inner.store(key, value)
        }
    }

    fn retrieve(&self, key: &[u8]) -> Result<Option<Vec<u8>>, String> {
        self.inner.retrieve(key)
    }

    fn delete(&mut self, key: &[u8]) -> Result<(), String> {
        if self.broken {
            Err(String::from("write refused"))
        } else {
            self.inner.delete(key)
        }
    }
}

#[test]
fn test_shutdown_refusals_are_reported_not_swallowed() {
    let mut c = Coordinator::new(
        BrokenMemory { broken: false, inner: MemoryBackend::new() },
        hardware(),
        1,
    );
    c.submit_with_id(&request(5), 7, 10).unwrap();
    c.start_next(20);
    c.log.backend.broken = true;
    let (signalled, refused) = c.shutdown();
    assert!(signalled.is_empty());
    assert_eq!(refused, vec![7]);
    let (forced, not_recorded) = c.force_cancel_stragglers(30);
    assert_eq!(forced, 1);
    assert_eq!(not_recorded, vec![7]);
}
