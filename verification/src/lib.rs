//! A task-parallel execution coordinator: tasks are submitted under a
//! concurrency cap, tracked through a lifecycle state machine, persisted for
//! crash recovery, and scheduled by priority; the cap adapts to observed
//! resource load.  Every module is verified with Verus.

pub mod breaker;
pub mod compression;
pub mod constants;
pub mod coordinator;
pub mod log;
pub mod lxsl;
pub mod monitor;
pub mod omnixerror;
pub mod persist;
pub mod queue;
pub mod registry;
pub mod router;
pub mod storage;
pub mod task;
pub mod textutil;
pub mod wrappers;

pub use coordinator::{Coordinator, Metrics};
pub use lxsl::LordXynSignatureLine;
pub use omnixerror::{CoordError, NTMError, OmniXError, OmniXErrorManagerConfig};
pub use task::{Hyperparameters, TaskMetadata, TaskRequest, TaskStatus};
pub use textutil::u64_to_string;
