//! The unit of work that travels from a producer to a worker.

use vstd::prelude::*;

verus! {

/// How the worker pool treats a task.
#[derive(Clone, Copy, Debug, PartialEq, Eq, Structural)]
pub enum ExecutionMode {
    /// Subject to the pool's concurrency bound.
    Pooled,
    /// Parallelizes by itself, so the pool does not throttle it.
    Exclusive,
}

/// A command, the interpreter that runs it, and how the pool treats it.
#[derive(Clone, Debug, PartialEq, Eq)]
pub struct Task {
    /// The interpreter, started as `shell -c command`.
    pub shell: String,
    pub command: String,
    pub execution_mode: ExecutionMode,
    /// How many threads the producer expects the task to use, if it says.
    pub concurrency_hint: Option<u32>,
}

} // verus!
