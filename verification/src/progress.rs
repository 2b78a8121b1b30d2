//! Progress phases for compression operations.  Event plumbing (callbacks,
//! channels) lives in the surrounding application; the phase vocabulary and
//! its rules are defined here.

use vstd::prelude::*;

verus! {

/// Phase of a compression operation.
#[derive(Debug, Clone, Copy, PartialEq, Eq, Structural)]
pub enum ProgressPhase {
    /// Discovering files to process.
    Discovery,
    /// Reading the source file.
    Reading,
    /// Encoding/compressing image data.
    Encoding,
    /// Verifying lossless compression.
    Verification,
    /// Writing the output file.
    Writing,
    /// Operation completed successfully.
    Complete,
    /// Operation failed.
    Failed,
}

impl ProgressPhase {
    /// Get a human-readable description of the phase.
    pub fn description(&self) -> (r: &'static str)
        ensures
            r@ == match self {
                ProgressPhase::Discovery => "Discovering files"@,
                ProgressPhase::Reading => "Reading DICOM"@,
                ProgressPhase::Encoding => "Compressing"@,
                ProgressPhase::Verification => "Verifying"@,
                ProgressPhase::Writing => "Writing output"@,
                ProgressPhase::Complete => "Complete"@,
                ProgressPhase::Failed => "Failed"@,
            },
    {
        match self {
            ProgressPhase::Discovery => "Discovering files",
            ProgressPhase::Reading => "Reading DICOM",
            ProgressPhase::Encoding => "Compressing",
            ProgressPhase::Verification => "Verifying",
            ProgressPhase::Writing => "Writing output",
            ProgressPhase::Complete => "Complete",
            ProgressPhase::Failed => "Failed",
        }
    }

    /// Check if this is a terminal phase.
    pub fn is_terminal(&self) -> (r: bool)
        ensures
            r == (self is Complete || self is Failed),
    {
        match self {
            ProgressPhase::Complete => true,
            ProgressPhase::Failed => true,
            _ => false,
        }
    }
}

/// A no-op progress sink: it never requests cancellation.
#[derive(Debug, Clone, Copy, Default)]
pub struct NullProgress;

impl NullProgress {
    /// A no-op progress sink never cancels.
    pub fn is_cancelled(&self) -> (r: bool)
        ensures
            !r,
    {
        false
    }
}

} // verus!
