//! The download queue: task bookkeeping, concurrency limiting, scheduling,
//! pause/resume/cancel, persistence across restarts, and the decisions of each
//! kind of download.

pub mod laws;
pub mod names;
pub mod plan_laws;
pub mod queue;
pub mod queue_laws;
pub mod run;
pub mod settings;
