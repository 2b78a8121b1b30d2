//! Batch job definitions.

use vstd::prelude::*;

use crate::text::{file_name_part, spec_file_name};
use vstd::string::StrSliceExecFns;

verus! {

/// Status of a batch job.
#[derive(Debug, Clone, Copy, PartialEq, Eq, Structural)]
pub enum JobStatus {
    /// Job is waiting to be processed.
    Pending,
    /// Job is currently being processed.
    Running,
    /// Job completed successfully.
    Completed,
    /// Job failed with an error.
    Failed,
    /// Job was cancelled.
    Cancelled,
    /// Job was skipped (e.g., already compressed).
    Skipped,
}

impl JobStatus {
    /// Check if the job is in a terminal state.
    pub fn is_terminal(&self) -> (r: bool)
        ensures
            r == (self is Completed || self is Failed || self is Cancelled || self is Skipped),
    {
        match self {
            JobStatus::Completed => true,
            JobStatus::Failed => true,
            JobStatus::Cancelled => true,
            JobStatus::Skipped => true,
            _ => false,
        }
    }

    /// Check if the job completed successfully.
    pub fn is_success(&self) -> (r: bool)
        ensures
            r == (self is Completed || self is Skipped),
    {
        match self {
            JobStatus::Completed => true,
            JobStatus::Skipped => true,
            _ => false,
        }
    }
}

/// A batch compression job.
#[derive(Debug, Clone)]
pub struct BatchJob {
    /// Unique job ID.
    pub id: u64,
    /// Source file path.
    pub source_path: String,
    /// Output file path (if specified).
    pub output_path: Option<String>,
    /// Current job status.
    pub status: JobStatus,
    /// Priority (lower = higher priority).
    pub priority: u32,
}

impl BatchJob {
    /// Create a new batch job: pending, with default priority.
    pub fn new(id: u64, source_path: String) -> (r: Self)
        ensures
            r.id == id,
            r.source_path == source_path,
            r.output_path is None,
            r.status == JobStatus::Pending,
            r.priority == 100,
    {
        Self { id, source_path, output_path: None, status: JobStatus::Pending, priority: 100 }
    }

    /// Set the output path.
    pub fn with_output(self, path: String) -> (r: Self)
        ensures
            r == (Self { output_path: Some(path), ..self }),
    {
        Self { output_path: Some(path), ..self }
    }

    /// Set the priority.
    pub fn with_priority(self, priority: u32) -> (r: Self)
        ensures
            r == (Self { priority, ..self }),
    {
        Self { priority, ..self }
    }

    /// Get the file name: the last path component, ignoring trailing
    /// slashes, or "unknown" when the path holds no file-name component.
    pub fn file_name(&self) -> (r: String)
        ensures
            r@ == if spec_file_name(self.source_path@).len() == 0 {
                "unknown"@
            } else {
                spec_file_name(self.source_path@)
            },
    {
        let name = file_name_part(self.source_path.as_str());
        if name.unicode_len() == 0 {
            "unknown".to_owned()
        } else {
            name.to_owned()
        }
    }
}

} // verus!
