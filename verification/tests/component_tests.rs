use xage::breaker::{CircuitState, OmniXErrorManager};
use xage::log::PersistenceLog;
use xage::monitor::ResourceSnapshot;
use xage::omnixerror::{LogLevel, OmniXError, OmniXErrorManagerConfig};
use xage::persist::{make_checkpoint, DecimalValue};
use xage::task::final_report;
use xage::queue::{PendingEntry, PendingQueue};
use xage::router::Router;
use xage::storage::MemoryBackend;
use xage::task::{ProgressBuffer, TaskProgress, TaskStatus};
use xage::textutil::{str_contains, str_eq};
use xage::u64_to_string;

#[test]
fn test_router_new() {
    let router = Router::new();
    assert_eq!(router.route("bevy").unwrap(), 0);
}

#[test]
fn test_router_route() {
    let router = Router::new();
    assert_eq!(router.route("bevy").unwrap(), 0);
    assert_eq!(router.route("research").unwrap(), 1);
    assert_eq!(router.route("rust").unwrap(), 2);
    assert_eq!(router.route("solana").unwrap(), 3);
    let err = router.route("cooking").unwrap_err();
    assert_eq!(err.message(), "Validation error: No expert found for task: cooking");
}

#[test]
fn test_u64_to_string_renders_decimal() {
    assert_eq!(u64_to_string(0), "0");
    assert_eq!(u64_to_string(7), "7");
    assert_eq!(u64_to_string(12_345), "12345");
    assert_eq!(u64_to_string(u64::MAX), "18446744073709551615");
}

#[test]
fn test_str_helpers() {
    assert!(str_eq("abc", "abc"));
    assert!(!str_eq("abc", "abd"));
    assert!(str_contains("hello world", "lo wo"));
    assert!(!str_contains("hello", "world"));
    assert!(str_contains("hello", ""));
}

#[test]
fn test_backoff_doubles_and_caps() {
    let manager = OmniXErrorManager::new(OmniXErrorManagerConfig::default());
    assert_eq!(manager.backoff_delay_ms(0), 100);
    assert_eq!(manager.backoff_delay_ms(1), 200);
    assert_eq!(manager.backoff_delay_ms(3), 800);
    assert_eq!(manager.backoff_delay_ms(10), 10_000);
    assert_eq!(manager.backoff_delay_ms(200), 10_000);
}

#[test]
fn test_circuit_opens_at_threshold_and_half_opens_later() {
    let mut manager = OmniXErrorManager::new(OmniXErrorManagerConfig::default());
    assert!(manager.check_circuit_state(0));
    let mut tripped = false;
    for i in 0..10 {
        tripped = manager.record_failure(i);
    }
    assert!(tripped);
    assert_eq!(manager.circuit_state, CircuitState::Open(9));
    assert!(!manager.check_circuit_state(10));
    assert!(manager.check_circuit_state(9 + 60_000));
    assert_eq!(manager.circuit_state, CircuitState::HalfOpen);
    assert!(manager.check_circuit_state(9 + 60_001));
    assert!(!manager.check_circuit_state(9 + 60_002));
    manager.record_success();
    assert_eq!(manager.circuit_state, CircuitState::Closed);
    assert_eq!(manager.error_count, 0);
}

#[test]
fn test_memory_backend_put_get_delete() {
    let mut backend = MemoryBackend::new();
    backend.put(b"alpha", b"one");
    backend.put(b"beta", b"two");
    backend.put(b"alpha", b"three");
    assert_eq!(backend.get(b"alpha").unwrap(), b"three");
    assert_eq!(backend.get(b"beta").unwrap(), b"two");
    assert!(backend.get(b"gamma").is_none());
    backend.remove(b"alpha");
    assert!(backend.get(b"alpha").is_none());
}

#[test]
fn test_persistence_log_cancel_flags() {
    let mut log = PersistenceLog::new(MemoryBackend::new());
    assert!(!log.should_cancel(5));
    assert!(log.mark_cancel_requested(5).unwrap());
    assert!(log.should_cancel(5));
    assert!(!log.mark_cancel_requested(5).unwrap());
    assert_eq!(log.cancels.len(), 1);
}

#[test]
fn test_progress_buffer_drops_oldest_when_full() {
    let mut buffer = ProgressBuffer::new(2);
    for i in 0..3u32 {
        buffer.push(TaskProgress {
            task_id: i as u128,
            progress_permille: i * 100,
            status: TaskStatus::Running,
            message: None,
        });
    }
    let first = buffer.pop_front().unwrap();
    assert_eq!(first.task_id, 1);
    let second = buffer.pop_front().unwrap();
    assert_eq!(second.task_id, 2);
    assert!(buffer.pop_front().is_none());
}

#[test]
fn test_pending_queue_orders_by_priority_then_ticket() {
    let mut queue = PendingQueue::new();
    queue.push(PendingEntry { id: 1, priority: 1, ticket: 0 });
    queue.push(PendingEntry { id: 2, priority: 3, ticket: 1 });
    queue.push(PendingEntry { id: 3, priority: 3, ticket: 2 });
    assert_eq!(queue.pop_best().unwrap().id, 2);
    assert_eq!(queue.pop_best().unwrap().id, 3);
    assert_eq!(queue.pop_best().unwrap().id, 1);
    assert!(queue.pop_best().is_none());
}

#[test]
fn test_snapshot_clamps_overfull_readings() {
    let snap = ResourceSnapshot::new(0, vec![20_000, 4_000], vec![], vec![], 0);
    assert_eq!(snap.cpu_usage, vec![10_000, 4_000]);
    assert_eq!(snap.mean_cpu(), 7_000);
    assert_eq!(snap.mean_gpu(), 0);
}

#[test]
fn test_log_mirrors_checkpoints_until_completion() {
    let mut log = PersistenceLog::new(MemoryBackend::new());
    let d = DecimalValue { negative: false, magnitude: 5, scale: 0 };
    let cp = make_checkpoint(9, 10, 100, d, 1_000);
    log.record_checkpoint(&cp).unwrap();
    let held = log.checkpoint_for(9).unwrap();
    assert_eq!(held.current_iteration, 10);
    let later = make_checkpoint(9, 20, 100, d, 2_000);
    log.record_checkpoint(&later).unwrap();
    assert_eq!(log.checkpoint_for(9).unwrap().current_iteration, 20);
    assert_eq!(log.checkpoints.len(), 1);
    log.mark_completed(9).unwrap();
    assert!(log.checkpoint_for(9).is_none());
}

#[test]
fn test_error_log_levels() {
    let e = OmniXError::OperationFailed {
        operation: "x".to_string(),
        details: "y".to_string(),
    };
    assert_eq!(e.log_level(), LogLevel::Error);
    let e = OmniXError::OperationTimeout { duration_ms: 5 };
    assert_eq!(e.log_level(), LogLevel::Warn);
    let e = OmniXError::DatabaseError("z".to_string());
    assert_eq!(e.log_level(), LogLevel::Info);
}

#[test]
fn test_final_report_reflects_the_outcome() {
    let ok = final_report(4, false, Ok(()));
    assert_eq!(ok.status, TaskStatus::Completed);
    assert_eq!(ok.progress_permille, 1_000);
    assert!(ok.message.is_none());
    let failed = final_report(4, false, Err(String::from("boom")));
    assert_eq!(failed.status, TaskStatus::Failed);
    assert_eq!(failed.message, Some(String::from("boom")));
    let cancelled = final_report(4, true, Err(String::from("stopped")));
    assert_eq!(cancelled.status, TaskStatus::Cancelled);
}
