//! Error taxonomy shared across the crate, with exact message rendering.
//!
//! Durations are carried in milliseconds so that contracts can speak of them
//! as plain integers.

use vstd::prelude::*;
use vstd::string::StringExecFns;
use crate::textutil::{append_u64, spec_dec_digits};

verus! {

/// Errors of the numeric computation layer.
#[derive(Debug)]
pub enum NTMError {
    ShapeMismatch { expected: Vec<usize>, actual: Vec<usize> },
    ComputationError,
    InvalidArgument(String),
    MemoryError(String),
}

/// General errors across the application.
#[derive(Debug)]
pub enum OmniXError {
    OperationFailed { operation: String, details: String },
    RetryLimitExceeded { retries: usize, last_error: String },
    CircuitBreakerActivated { count: usize, duration_ms: u64 },
    OperationTimeout { duration_ms: u64 },
    FileSystemError(String),
    EnvVarError(String),
    ProjectCreationError(String),
    MetricsInitError(String),
    LoggingError(String),
    DatabaseError(String),
    NetworkError(String),
    AuthenticationError(String),
    AuthorizationError(String),
    ValidationError(String),
    NTMShapeMismatch { expected: Vec<usize>, actual: Vec<usize> },
    NTMComputationError,
    NTMInvalidArgument(String),
    NTMMemoryError(String),
}

/// How loudly an error is reported.
#[derive(Clone, Copy, PartialEq, Eq, Structural, Debug)]
pub enum LogLevel {
    Error,
    Warn,
    Info,
}

/// How a duration in milliseconds is rendered: whole seconds as `Ns`,
/// anything else as `Nms`.
pub open spec fn spec_duration_text(ms: nat) -> Seq<char> {
    if ms % 1000 == 0 {
        spec_dec_digits(ms / 1000) + "s"@
    } else {
        spec_dec_digits(ms) + "ms"@
    }
}

/// How a list of sizes is rendered: bracketed, comma-separated.
pub open spec fn spec_size_list_inner(vs: Seq<usize>) -> Seq<char>
    decreases vs.len(),
{
    if vs.len() == 0 {
        Seq::empty()
    } else if vs.len() == 1 {
        spec_dec_digits(vs[0] as nat)
    } else {
        spec_size_list_inner(vs.drop_last()) + ", "@ + spec_dec_digits(vs.last() as nat)
    }
}

pub open spec fn spec_size_list(vs: Seq<usize>) -> Seq<char> {
    "["@ + spec_size_list_inner(vs) + "]"@
}

fn append_duration(out: &mut String, ms: u64)
    ensures
        final(out)@ == old(out)@ + spec_duration_text(ms as nat),
{
    if ms % 1000 == 0 {
        append_u64(out, ms / 1000);
        out.append("s");
    } else {
        append_u64(out, ms);
        out.append("ms");
    }
    proof {
        assert(out@ =~= old(out)@ + spec_duration_text(ms as nat));
    }
}

fn append_size_list(out: &mut String, vs: &Vec<usize>)
    ensures
        final(out)@ == old(out)@ + spec_size_list(vs@),
{
    out.append("[");
    let mut i: usize = 0;
    proof {
        assert(vs@.take(0) =~= Seq::<usize>::empty());
        assert(out@ =~= old(out)@ + "["@ + spec_size_list_inner(vs@.take(0)));
    }
    while i < vs.len()
        invariant
            i <= vs@.len(),
            out@ == old(out)@ + "["@ + spec_size_list_inner(vs@.take(i as int)),
        decreases vs@.len() - i,
    {
        if i > 0 {
            out.append(", ");
        }
        let n = vs[i];
        append_u64(out, n as u64);
        proof {
            assert(vs@.take(i + 1).drop_last() =~= vs@.take(i as int));
            assert(vs@.take(i + 1).last() == vs@[i as int]);
            assert((n as u64) as nat == vs@[i as int] as nat);
            assert(out@ =~= old(out)@ + "["@ + spec_size_list_inner(vs@.take(i + 1)));
        }
        i = i + 1;
    }
    out.append("]");
    proof {
        assert(vs@.take(vs@.len() as int) =~= vs@);
        assert(out@ =~= old(out)@ + spec_size_list(vs@));
    }
}

impl NTMError {
    /// The text of the error.
    pub open spec fn spec_message(&self) -> Seq<char> {
        match self {
            NTMError::ShapeMismatch { expected, actual } => "Shape mismatch: expected "@
                + spec_size_list(expected@) + ", actual "@ + spec_size_list(actual@),
            NTMError::ComputationError => "A computation error occurred."@,
            NTMError::InvalidArgument(s) => "Invalid argument: "@ + s@,
            NTMError::MemoryError(s) => "Memory error: "@ + s@,
        }
    }

    /// Renders the error as text.
    pub fn message(&self) -> (r: String)
        ensures
            r@ == self.spec_message(),
    {
        let mut out = String::new();
        match self {
            NTMError::ShapeMismatch { expected, actual } => {
                out.append("Shape mismatch: expected ");
                append_size_list(&mut out, expected);
                out.append(", actual ");
                append_size_list(&mut out, actual);
            },
            NTMError::ComputationError => {
                out.append("A computation error occurred.");
            },
            NTMError::InvalidArgument(s) => {
                out.append("Invalid argument: ");
                out.append(s.as_str());
            },
            NTMError::MemoryError(s) => {
                out.append("Memory error: ");
                out.append(s.as_str());
            },
        }
        proof {
            assert(out@ =~= self.spec_message());
        }
        out
    }
}

impl OmniXError {
    /// How loudly this error is logged: operation and retry failures as
    /// errors, breaker and timeout events as warnings, the rest as
    /// information.
    pub fn log_level(&self) -> (r: LogLevel)
        ensures
            r == self.spec_log_level(),
    {
        match self {
            OmniXError::OperationFailed { .. } => LogLevel::Error,
            OmniXError::RetryLimitExceeded { .. } => LogLevel::Error,
            OmniXError::CircuitBreakerActivated { .. } => LogLevel::Warn,
            OmniXError::OperationTimeout { .. } => LogLevel::Warn,
            _ => LogLevel::Info,
        }
    }

    /// The level `log_level` reports.
    pub open spec fn spec_log_level(&self) -> LogLevel {
        match self {
            OmniXError::OperationFailed { .. } => LogLevel::Error,
            OmniXError::RetryLimitExceeded { .. } => LogLevel::Error,
            OmniXError::CircuitBreakerActivated { .. } => LogLevel::Warn,
            OmniXError::OperationTimeout { .. } => LogLevel::Warn,
            _ => LogLevel::Info,
        }
    }

    /// The text of the error.
    pub open spec fn spec_message(&self) -> Seq<char> {
        match self {
            OmniXError::OperationFailed { operation, details } => "Operation failed during "@
                + operation@ + ": "@ + details@,
            OmniXError::RetryLimitExceeded { retries, last_error } =>
                "Retry limit exceeded after "@ + spec_dec_digits(*retries as nat)
                + " attempts: "@ + last_error@,
            OmniXError::CircuitBreakerActivated { count, duration_ms } =>
                "Circuit breaker activated after "@ + spec_dec_digits(*count as nat)
                + " errors in "@ + spec_duration_text(*duration_ms as nat),
            OmniXError::OperationTimeout { duration_ms } => "Operation timed out after "@
                + spec_duration_text(*duration_ms as nat),
            OmniXError::FileSystemError(s) => "File system error: "@ + s@,
            OmniXError::EnvVarError(s) => "Environment variable error: "@ + s@,
            OmniXError::ProjectCreationError(s) => "Project creation error: "@ + s@,
            OmniXError::MetricsInitError(s) => "Metrics initialization error: "@ + s@,
            OmniXError::LoggingError(s) => "Logging error: "@ + s@,
            OmniXError::DatabaseError(s) => "Database error: "@ + s@,
            OmniXError::NetworkError(s) => "Network error: "@ + s@,
            OmniXError::AuthenticationError(s) => "Authentication error: "@ + s@,
            OmniXError::AuthorizationError(s) => "Authorization error: "@ + s@,
            OmniXError::ValidationError(s) => "Validation error: "@ + s@,
            OmniXError::NTMShapeMismatch { expected, actual } => "Shape mismatch: expected "@
                + spec_size_list(expected@) + ", actual "@ + spec_size_list(actual@),
            OmniXError::NTMComputationError => "A computation error occurred."@,
            OmniXError::NTMInvalidArgument(s) => "Invalid argument: "@ + s@,
            OmniXError::NTMMemoryError(s) => "Memory error: "@ + s@,
        }
    }

    /// Renders the error as text.
    pub fn message(&self) -> (r: String)
        ensures
            r@ == self.spec_message(),
    {
        let mut out = String::new();
        match self {
            OmniXError::OperationFailed { operation, details } => {
                out.append("Operation failed during ");
                out.append(operation.as_str());
                out.append(": ");
                out.append(details.as_str());
            },
            OmniXError::RetryLimitExceeded { retries, last_error } => {
                out.append("Retry limit exceeded after ");
                append_u64(&mut out, *retries as u64);
                out.append(" attempts: ");
                out.append(last_error.as_str());
            },
            OmniXError::CircuitBreakerActivated { count, duration_ms } => {
                out.append("Circuit breaker activated after ");
                append_u64(&mut out, *count as u64);
                out.append(" errors in ");
                append_duration(&mut out, *duration_ms);
            },
            OmniXError::OperationTimeout { duration_ms } => {
                out.append("Operation timed out after ");
                append_duration(&mut out, *duration_ms);
            },
            OmniXError::FileSystemError(s) => {
                out.append("File system error: ");
                out.append(s.as_str());
            },
            OmniXError::EnvVarError(s) => {
                out.append("Environment variable error: ");
                out.append(s.as_str());
            },
            OmniXError::ProjectCreationError(s) => {
                out.append("Project creation error: ");
                out.append(s.as_str());
            },
            OmniXError::MetricsInitError(s) => {
                out.append("Metrics initialization error: ");
                out.append(s.as_str());
            },
            OmniXError::LoggingError(s) => {
                out.append("Logging error: ");
                out.append(s.as_str());
            },
            OmniXError::DatabaseError(s) => {
                out.append("Database error: ");
                out.append(s.as_str());
            },
            OmniXError::NetworkError(s) => {
                out.append("Network error: ");
                out.append(s.as_str());
            },
            OmniXError::AuthenticationError(s) => {
                out.append("Authentication error: ");
                out.append(s.as_str());
            },
            OmniXError::AuthorizationError(s) => {
                out.append("Authorization error: ");
                out.append(s.as_str());
            },
            OmniXError::ValidationError(s) => {
                out.append("Validation error: ");
                out.append(s.as_str());
            },
            OmniXError::NTMShapeMismatch { expected, actual } => {
                out.append("Shape mismatch: expected ");
                append_size_list(&mut out, expected);
                out.append(", actual ");
                append_size_list(&mut out, actual);
            },
            OmniXError::NTMComputationError => {
                out.append("A computation error occurred.");
            },
            OmniXError::NTMInvalidArgument(s) => {
                out.append("Invalid argument: ");
                out.append(s.as_str());
            },
            OmniXError::NTMMemoryError(s) => {
                out.append("Memory error: ");
                out.append(s.as_str());
            },
        }
        proof {
            assert(out@ =~= self.spec_message());
        }
        out
    }
}

/// Settings for retry and circuit-breaker handling, durations in
/// milliseconds.
#[derive(Clone, Copy, Debug)]
pub struct OmniXErrorManagerConfig {
    pub max_retries: usize,
    pub circuit_breaker_threshold: usize,
    pub circuit_breaker_duration_ms: u64,
    pub base_delay_ms: u64,
    pub max_delay_ms: u64,
    pub timeout_ms: u64,
}

impl Default for OmniXErrorManagerConfig {
    /// Three retries, a breaker that opens after ten errors for a minute,
    /// backoff from a tenth of a second up to ten seconds, and a timeout of
    /// thirty seconds.
    fn default() -> (r: Self)
        ensures
            r.max_retries == 3,
            r.circuit_breaker_threshold == 10,
            r.circuit_breaker_duration_ms == 60000,
            r.base_delay_ms == 100,
            r.max_delay_ms == 10000,
            r.timeout_ms == 30000,
    {
        OmniXErrorManagerConfig {
            max_retries: 3,
            circuit_breaker_threshold: 10,
            circuit_breaker_duration_ms: 60000,
            base_delay_ms: 100,
            max_delay_ms: 10000,
            timeout_ms: 30000,
        }
    }
}

/// Errors of the coordinator itself.  Admission refusals are retryable;
/// persistence failures abort the operation that needed durability; a drain
/// that runs out of time is a warning, not a failure.
#[derive(Debug)]
pub enum CoordError {
    CapacityExceeded,
    TaskExecutionError(String),
    TaskCancellationError(String),
    PersistenceError(String),
    ResourceMonitorError(String),
    ShutdownTimeout,
}

impl CoordError {
    /// The text of the error.
    pub open spec fn spec_message(&self) -> Seq<char> {
        match self {
            CoordError::CapacityExceeded => "Capacity exceeded: admission refused"@,
            CoordError::TaskExecutionError(s) => "Task execution error: "@ + s@,
            CoordError::TaskCancellationError(s) => "Task cancelled: "@ + s@,
            CoordError::PersistenceError(s) => "Persistence error: "@ + s@,
            CoordError::ResourceMonitorError(s) => "Resource monitor error: "@ + s@,
            CoordError::ShutdownTimeout => "Shutdown timed out: tasks were force-cancelled"@,
        }
    }

    /// Renders the error as text.
    pub fn message(&self) -> (r: String)
        ensures
            r@ == self.spec_message(),
    {
        let mut out = String::new();
        match self {
            CoordError::CapacityExceeded => {
                out.append("Capacity exceeded: admission refused");
            },
            CoordError::TaskExecutionError(s) => {
                out.append("Task execution error: ");
                out.append(s.as_str());
            },
            CoordError::TaskCancellationError(s) => {
                out.append("Task cancelled: ");
                out.append(s.as_str());
            },
            CoordError::PersistenceError(s) => {
                out.append("Persistence error: ");
                out.append(s.as_str());
            },
            CoordError::ResourceMonitorError(s) => {
                out.append("Resource monitor error: ");
                out.append(s.as_str());
            },
            CoordError::ShutdownTimeout => {
                out.append("Shutdown timed out: tasks were force-cancelled");
            },
        }
        proof {
            assert(out@ =~= self.spec_message());
        }
        out
    }
}

} // verus!
