//! Metadata describing a stored image, and utilities over transfer syntax
//! identifiers.  Reading and writing the container files themselves is left
//! to the surrounding application; this module holds the plain values that
//! the compression logic consumes.

use vstd::prelude::*;

use crate::config::Modality;
use crate::text::str_eq;

verus! {

/// Essential metadata for compression, as plain values.
#[derive(Debug, Clone)]
pub struct DicomMetadata {
    /// Patient ID.
    pub patient_id: Option<String>,
    /// Study instance identifier.
    pub study_uid: Option<String>,
    /// Series instance identifier.
    pub series_uid: Option<String>,
    /// Object instance identifier.
    pub sop_instance_uid: Option<String>,
    /// Image modality.
    pub modality: Modality,
    /// Original transfer syntax identifier.
    pub transfer_syntax: String,
    /// Image width (columns).
    pub width: u32,
    /// Image height (rows).
    pub height: u32,
    /// Bits allocated per sample.
    pub bits_allocated: u16,
    /// Bits stored per sample.
    pub bits_stored: u16,
    /// High bit position.
    pub high_bit: u16,
    /// Samples per pixel (1 = grayscale, 3 = RGB).
    pub samples_per_pixel: u16,
    /// Photometric interpretation (e.g., MONOCHROME2, RGB).
    pub photometric_interpretation: String,
    /// Pixel representation (0 = unsigned, 1 = signed).
    pub pixel_representation: u16,
    /// Number of frames.
    pub number_of_frames: u32,
    /// Planar configuration (for color images).
    pub planar_configuration: u16,
}

/// The pixel-data size the metadata geometry requires, over all frames.
pub open spec fn spec_pixel_data_size(m: DicomMetadata) -> int {
    m.width * m.height * m.samples_per_pixel * ((m.bits_allocated + 7) / 8) * m.number_of_frames
}

/// Calculate expected pixel data size from metadata.
pub fn calculate_pixel_data_size(metadata: &DicomMetadata) -> (r: usize)
    requires
        spec_pixel_data_size(*metadata) <= usize::MAX,
    ensures
        r == spec_pixel_data_size(*metadata),
{
    let base = crate::expected_size_u128(
        metadata.width,
        metadata.height,
        metadata.bits_allocated,
        metadata.samples_per_pixel,
    );
    let frames = metadata.number_of_frames as u128;
    proof {
        assert(0 <= base < 0x1_0000_0000_0000_0000_0000_0000) by (nonlinear_arith)
            requires
                base == ((metadata.width * metadata.height) as int
                    * metadata.samples_per_pixel as int) * ((metadata.bits_allocated + 7) as int
                    / 8),
                metadata.width < 0x1_0000_0000,
                metadata.height < 0x1_0000_0000,
                metadata.samples_per_pixel < 0x1_0000,
                0 <= (metadata.bits_allocated + 7) as int / 8 <= 0x2000,
        ;
        assert(base * frames < 0x1_0000_0000_0000_0000_0000_0000_0000_0000) by (nonlinear_arith)
            requires
                0 <= base < 0x1_0000_0000_0000_0000_0000_0000,
                0 <= frames < 0x1_0000_0000,
        ;
        assert(base * frames == spec_pixel_data_size(*metadata)) by (nonlinear_arith)
            requires
                base == ((metadata.width * metadata.height) as int
                    * metadata.samples_per_pixel as int) * ((metadata.bits_allocated + 7) as int
                    / 8),
                frames == metadata.number_of_frames,
        ;
    }
    (base * frames) as usize
}

/// Whether a transfer syntax identifier names a lossless encoding.
pub open spec fn spec_is_lossless_transfer_syntax(ts: Seq<char>) -> bool {
    ||| ts == "1.2.840.10008.1.2"@
    ||| ts == "1.2.840.10008.1.2.1"@
    ||| ts == "1.2.840.10008.1.2.2"@
    ||| ts == "1.2.840.10008.1.2.4.70"@
    ||| ts == "1.2.840.10008.1.2.4.80"@
    ||| ts == "1.2.840.10008.1.2.4.90"@
    ||| ts == "1.2.840.10008.1.2.5"@
}

/// Check if a transfer syntax is lossless.
pub fn is_lossless_transfer_syntax(ts: &str) -> (r: bool)
    ensures
        r == spec_is_lossless_transfer_syntax(ts@),
{
    str_eq(ts, "1.2.840.10008.1.2") || str_eq(ts, "1.2.840.10008.1.2.1") || str_eq(
        ts,
        "1.2.840.10008.1.2.2",
    ) || str_eq(ts, "1.2.840.10008.1.2.4.70") || str_eq(ts, "1.2.840.10008.1.2.4.80") || str_eq(
        ts,
        "1.2.840.10008.1.2.4.90",
    ) || str_eq(ts, "1.2.840.10008.1.2.5")
}

/// The human-readable name of a transfer syntax identifier.
pub open spec fn spec_transfer_syntax_name(ts: Seq<char>) -> Seq<char> {
    if ts == "1.2.840.10008.1.2"@ {
        "Implicit VR Little Endian"@
    } else if ts == "1.2.840.10008.1.2.1"@ {
        "Explicit VR Little Endian"@
    } else if ts == "1.2.840.10008.1.2.2"@ {
        "Explicit VR Big Endian"@
    } else if ts == "1.2.840.10008.1.2.4.70"@ {
        "JPEG Lossless"@
    } else if ts == "1.2.840.10008.1.2.4.80"@ {
        "JPEG-LS Lossless"@
    } else if ts == "1.2.840.10008.1.2.4.81"@ {
        "JPEG-LS Near-Lossless"@
    } else if ts == "1.2.840.10008.1.2.4.90"@ {
        "JPEG 2000 Lossless"@
    } else if ts == "1.2.840.10008.1.2.4.91"@ {
        "JPEG 2000 Lossy"@
    } else if ts == "1.2.840.10008.1.2.5"@ {
        "RLE Lossless"@
    } else {
        "Unknown"@
    }
}

/// Get a human-readable name for a transfer syntax.
pub fn transfer_syntax_name(ts: &str) -> (r: &'static str)
    ensures
        r@ == spec_transfer_syntax_name(ts@),
{
    if str_eq(ts, "1.2.840.10008.1.2") {
        "Implicit VR Little Endian"
    } else if str_eq(ts, "1.2.840.10008.1.2.1") {
        "Explicit VR Little Endian"
    } else if str_eq(ts, "1.2.840.10008.1.2.2") {
        "Explicit VR Big Endian"
    } else if str_eq(ts, "1.2.840.10008.1.2.4.70") {
        "JPEG Lossless"
    } else if str_eq(ts, "1.2.840.10008.1.2.4.80") {
        "JPEG-LS Lossless"
    } else if str_eq(ts, "1.2.840.10008.1.2.4.81") {
        "JPEG-LS Near-Lossless"
    } else if str_eq(ts, "1.2.840.10008.1.2.4.90") {
        "JPEG 2000 Lossless"
    } else if str_eq(ts, "1.2.840.10008.1.2.4.91") {
        "JPEG 2000 Lossy"
    } else if str_eq(ts, "1.2.840.10008.1.2.5") {
        "RLE Lossless"
    } else {
        "Unknown"
    }
}

} // verus!
