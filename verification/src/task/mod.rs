//! Tasks: their control blocks and stride-scheduling priorities.

pub mod priority;
pub mod task;
