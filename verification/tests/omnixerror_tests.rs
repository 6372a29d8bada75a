use xage::omnixerror::{CoordError, OmniXError, OmniXErrorManagerConfig};

#[test]
fn test_operation_failed_error() {
    let error = OmniXError::OperationFailed {
        operation: "test".to_string(),
        details: "Some error occurred".to_string(),
    };
    assert_eq!(error.message(), "Operation failed during test: Some error occurred");
}

#[test]
fn test_retry_limit_exceeded_error() {
    let error = OmniXError::RetryLimitExceeded {
        retries: 5,
        last_error: "Last attempt failed".to_string(),
    };
    assert_eq!(error.message(), "Retry limit exceeded after 5 attempts: Last attempt failed");
}

#[test]
fn test_circuit_breaker_activated_error() {
    let error = OmniXError::CircuitBreakerActivated { count: 10, duration_ms: 60_000 };
    assert_eq!(error.message(), "Circuit breaker activated after 10 errors in 60s");
}

#[test]
fn test_operation_timeout_error() {
    let error = OmniXError::OperationTimeout { duration_ms: 30_000 };
    assert_eq!(error.message(), "Operation timed out after 30s");
}

#[test]
fn test_file_system_error() {
    let error = OmniXError::FileSystemError("Disk not found".to_string());
    assert_eq!(error.message(), "File system error: Disk not found");
}

#[test]
fn test_env_var_error() {
    let error = OmniXError::EnvVarError("Missing environment variable".to_string());
    assert_eq!(error.message(), "Environment variable error: Missing environment variable");
}

#[test]
fn test_project_creation_error() {
    let error = OmniXError::ProjectCreationError("Unable to create project".to_string());
    assert_eq!(error.message(), "Project creation error: Unable to create project");
}

#[test]
fn test_metrics_init_error() {
    let error = OmniXError::MetricsInitError("Failed to initialize metrics".to_string());
    assert_eq!(error.message(), "Metrics initialization error: Failed to initialize metrics");
}

#[test]
fn test_logging_error() {
    let error = OmniXError::LoggingError("Log file not found".to_string());
    assert_eq!(error.message(), "Logging error: Log file not found");
}

#[test]
fn test_database_error() {
    let error = OmniXError::DatabaseError("Connection failed".to_string());
    assert_eq!(error.message(), "Database error: Connection failed");
}

#[test]
fn test_network_error() {
    let error = OmniXError::NetworkError("Network unreachable".to_string());
    assert_eq!(error.message(), "Network error: Network unreachable");
}

#[test]
fn test_authentication_error() {
    let error = OmniXError::AuthenticationError("Invalid credentials".to_string());
    assert_eq!(error.message(), "Authentication error: Invalid credentials");
}

#[test]
fn test_authorization_error() {
    let error = OmniXError::AuthorizationError("Access denied".to_string());
    assert_eq!(error.message(), "Authorization error: Access denied");
}

#[test]
fn test_validation_error() {
    let error = OmniXError::ValidationError("Input is invalid".to_string());
    assert_eq!(error.message(), "Validation error: Input is invalid");
}

#[test]
fn test_shape_mismatch_error() {
    let error = OmniXError::NTMShapeMismatch { expected: vec![2, 3], actual: vec![3, 2] };
    assert_eq!(error.message(), "Shape mismatch: expected [2, 3], actual [3, 2]");
}

#[test]
fn test_sub_second_duration_text() {
    let error = OmniXError::OperationTimeout { duration_ms: 1_500 };
    assert_eq!(error.message(), "Operation timed out after 1500ms");
}

#[test]
fn test_coord_error_messages() {
    assert_eq!(
        CoordError::CapacityExceeded.message(),
        "Capacity exceeded: admission refused"
    );
    assert_eq!(
        CoordError::PersistenceError("disk full".to_string()).message(),
        "Persistence error: disk full"
    );
    assert_eq!(
        CoordError::ShutdownTimeout.message(),
        "Shutdown timed out: tasks were force-cancelled"
    );
}

#[test]
fn test_error_manager_config_default() {
    let config = OmniXErrorManagerConfig::default();
    assert_eq!(config.max_retries, 3);
    assert_eq!(config.circuit_breaker_threshold, 10);
    assert_eq!(config.circuit_breaker_duration_ms, 60_000);
    assert_eq!(config.base_delay_ms, 100);
    assert_eq!(config.max_delay_ms, 10_000);
    assert_eq!(config.timeout_ms, 30_000);
}
