//! Batch processing building blocks: job records and file discovery rules.
//! The directory walking and the parallel scheduling live in the
//! surrounding application.

pub mod file_discovery;
pub mod job;
