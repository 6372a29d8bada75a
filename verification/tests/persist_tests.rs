use xage::persist::{
    decode_checkpoint, decode_metadata, encode_checkpoint, encode_metadata, make_checkpoint,
    verify_checkpoint, DecimalValue, PersistedCheckpoint,
};
use xage::task::{TaskMetadata, TaskStatus};

fn decimal() -> DecimalValue {
    DecimalValue { negative: false, magnitude: 1234567890123456789, scale: 9 }
}

#[test]
fn test_checkpoint_roundtrip_is_exact() {
    let cp = make_checkpoint(77, 400, 1_000, decimal(), 5_000);
    let bytes = encode_checkpoint(&cp);
    assert_eq!(bytes.len(), 93);
    let back = decode_checkpoint(&bytes).unwrap();
    assert_eq!(back.task_id, 77);
    assert_eq!(back.current_iteration, 400);
    assert_eq!(back.total_iterations, 1_000);
    assert_eq!(back.partial_result, decimal());
    assert_eq!(back.last_checkpoint, 5_000);
    assert_eq!(back.integrity_hash, cp.integrity_hash);
    assert!(verify_checkpoint(&back));
}

#[test]
fn test_checkpoint_digest_is_thirty_two_bytes() {
    let cp = make_checkpoint(1, 0, 10, decimal(), 0);
    assert_eq!(cp.integrity_hash.len(), 32);
}

#[test]
fn test_tampered_checkpoint_fails_verification() {
    let cp = make_checkpoint(77, 400, 1_000, decimal(), 5_000);
    let tampered = PersistedCheckpoint {
        partial_result: DecimalValue { negative: false, magnitude: 999, scale: 9 },
        ..cp
    };
    assert!(!verify_checkpoint(&tampered));
}

#[test]
fn test_negative_decimal_roundtrip() {
    let d = DecimalValue { negative: true, magnitude: 42, scale: 2 };
    let cp = make_checkpoint(5, 1, 2, d, 9);
    let back = decode_checkpoint(&encode_checkpoint(&cp)).unwrap();
    assert_eq!(back.partial_result, d);
}

#[test]
fn test_malformed_checkpoint_bytes_are_rejected() {
    assert!(decode_checkpoint(&[0u8; 10]).is_none());
    let cp = make_checkpoint(1, 3, 4, decimal(), 0);
    // An iteration count past the total is malformed on the wire.
    let mut bytes = encode_checkpoint(&cp);
    bytes[16] = 9;
    assert!(decode_checkpoint(&bytes).is_none());
}

#[test]
fn test_metadata_roundtrip_is_exact() {
    let m = TaskMetadata {
        id: 123456789,
        submitted_at: 1_111,
        started_at: Some(2_222),
        completed_at: None,
        dependencies: vec![7, 8, 9],
        gpu_compatible: true,
        status: TaskStatus::Running,
        complexity: 5_000,
        priority: 9,
    };
    let bytes = encode_metadata(&m);
    let back = decode_metadata(&bytes).unwrap();
    assert_eq!(back.id, m.id);
    assert_eq!(back.submitted_at, m.submitted_at);
    assert_eq!(back.started_at, m.started_at);
    assert_eq!(back.completed_at, m.completed_at);
    assert_eq!(back.dependencies, m.dependencies);
    assert_eq!(back.gpu_compatible, m.gpu_compatible);
    assert_eq!(back.status, m.status);
    assert_eq!(back.complexity, m.complexity);
    assert_eq!(back.priority, m.priority);
}

#[test]
fn test_metadata_without_dependencies_roundtrips() {
    let m = TaskMetadata {
        id: 1,
        submitted_at: 0,
        started_at: None,
        completed_at: None,
        dependencies: Vec::new(),
        gpu_compatible: false,
        status: TaskStatus::Queued,
        complexity: 0,
        priority: 0,
    };
    let bytes = encode_metadata(&m);
    assert_eq!(bytes.len(), 61);
    let back = decode_metadata(&bytes).unwrap();
    assert_eq!(back.id, 1);
    assert_eq!(back.status, TaskStatus::Queued);
}

#[test]
fn test_malformed_metadata_bytes_are_rejected() {
    assert!(decode_metadata(&[1u8; 13]).is_none());
    let m = TaskMetadata {
        id: 1,
        submitted_at: 0,
        started_at: None,
        completed_at: None,
        dependencies: Vec::new(),
        gpu_compatible: false,
        status: TaskStatus::Queued,
        complexity: 0,
        priority: 0,
    };
    let mut bytes = encode_metadata(&m);
    // A status code outside the state machine is malformed on the wire.
    bytes[43] = 200;
    assert!(decode_metadata(&bytes).is_none());
}
