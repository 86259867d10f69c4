//! A single-process priority task scheduler: tasks tagged with a priority
//! class are queued in priority order and drained highest class first.

pub mod generate;
pub mod scheduler;
pub mod task;
