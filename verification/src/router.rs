//! Routing of task kinds to expert slots.

use vstd::prelude::*;
use vstd::string::StringExecFns;
use crate::omnixerror::OmniXError;
use crate::textutil::str_eq;

verus! {

/// The expert slot for a task kind, when there is one.
pub open spec fn spec_route(t: Seq<char>) -> Option<usize> {
    if t == "bevy"@ {
        Some(0usize)
    } else if t == "research"@ {
        Some(1usize)
    } else if t == "rust"@ {
        Some(2usize)
    } else if t == "solana"@ {
        Some(3usize)
    } else {
        None
    }
}

/// Maps a task kind to the expert that handles it.
pub struct Router;

impl Router {
    pub fn new() -> (r: Router) {
        Router {  }
    }

    /// The slot for `task`, or a validation error naming the task.
    pub fn route(&self, task: &str) -> (r: Result<usize, OmniXError>)
        ensures
            match r {
                Ok(i) => spec_route(task@) == Some(i),
                Err(e) => spec_route(task@) is None && match e {
                    OmniXError::ValidationError(s) => s@ == "No expert found for task: "@
                        + task@,
                    _ => false,
                },
            },
    {
        if str_eq(task, "bevy") {
            Ok(0)
        } else if str_eq(task, "research") {
            Ok(1)
        } else if str_eq(task, "rust") {
            Ok(2)
        } else if str_eq(task, "solana") {
            Ok(3)
        } else {
            let mut msg = String::new();
            msg.append("No expert found for task: ");
            msg.append(task);
            Err(OmniXError::ValidationError(msg))
        }
    }
}

} // verus!
