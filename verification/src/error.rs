//! Error types for the medical image compression library.

use vstd::prelude::*;

verus! {

/// Main error type for the medical image compression library.
#[derive(Debug)]
pub enum MedImgError {
    /// Error reading or parsing a DICOM file.
    Dicom(String),
    /// Error during image compression/decompression.
    Codec(String),
    /// Invalid or unsupported image format.
    InvalidFormat(String),
    /// Unsupported transfer syntax.
    UnsupportedTransferSyntax(String),
    /// Configuration error.
    Config(String),
    /// I/O error, carried as text.
    Io(String),
    /// Validation error (e.g., regulatory constraints violated).
    Validation(String),
    /// Image dimensions or data mismatch.
    ImageData(String),
    /// Compression ratio constraint violation.
    CompressionConstraint(String),
    /// Generic internal error.
    Internal(String),
}

impl MedImgError {
    /// The detail text carried by the error.
    pub fn message(&self) -> (r: &String)
        ensures
            r == match self {
                MedImgError::Dicom(m) => m,
                MedImgError::Codec(m) => m,
                MedImgError::InvalidFormat(m) => m,
                MedImgError::UnsupportedTransferSyntax(m) => m,
                MedImgError::Config(m) => m,
                MedImgError::Io(m) => m,
                MedImgError::Validation(m) => m,
                MedImgError::ImageData(m) => m,
                MedImgError::CompressionConstraint(m) => m,
                MedImgError::Internal(m) => m,
            },
    {
        match self {
            MedImgError::Dicom(m) => m,
            MedImgError::Codec(m) => m,
            MedImgError::InvalidFormat(m) => m,
            MedImgError::UnsupportedTransferSyntax(m) => m,
            MedImgError::Config(m) => m,
            MedImgError::Io(m) => m,
            MedImgError::Validation(m) => m,
            MedImgError::ImageData(m) => m,
            MedImgError::CompressionConstraint(m) => m,
            MedImgError::Internal(m) => m,
        }
    }
}

} // verus!
