//! Project-wide constants.

use vstd::prelude::*;

verus! {

/// The banner template that a signature line carries.
pub const ARCMOON_SIGNATURE: &'static str = "~=#######D]======A===r===c====M===o===o===n=====<Lord[{}]Xyn>=====S===t===u===d===i===o===s======[R|$>";

/// How many tasks may run at once when a coordinator starts.
pub const INITIAL_TASK_CONCURRENCY: usize = 4;

/// A long-running task writes a checkpoint every this many iterations.
pub const CHECKPOINT_INTERVAL: u64 = 100;

} // verus!
