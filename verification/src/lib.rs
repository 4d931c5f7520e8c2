//! Core engine of a command-line time tracker.
//!
//! Projects group tasks; tasks own time entries recording when work started
//! and stopped. This crate holds the verified core: the task lifecycle rules
//! (which status transitions are legal, and how a task's status moves in
//! lockstep with its open time entries), the cascading store model, date
//! handling for report filters, and the reporting aggregation. Persistence,
//! rendering and the command line itself live outside the library and consume
//! the plain records and decisions it produces.

pub mod clock;
pub mod date;
pub mod error;
pub mod laws;
pub mod records;
pub mod render;
pub mod report;
pub mod status;
pub mod store;

pub use error::EngineError;
pub use records::ProjectRecord;
pub use records::TaskRecord;
pub use records::TimeEntryRecord;
pub use status::TaskStatus;
