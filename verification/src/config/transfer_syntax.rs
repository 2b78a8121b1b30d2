//! Transfer syntax identifier constants for the container formats.

use vstd::prelude::*;

verus! {

/// Transform container, lossless mode.
pub const JPEG_2000_LOSSLESS: &'static str = "1.2.840.10008.1.2.4.90";

/// Transform container, lossy mode.
pub const JPEG_2000_LOSSY: &'static str = "1.2.840.10008.1.2.4.91";

/// Prediction container, lossless mode.
pub const JPEG_LS_LOSSLESS: &'static str = "1.2.840.10008.1.2.4.80";

/// Prediction container, near-lossless mode.
pub const JPEG_LS_NEAR_LOSSLESS: &'static str = "1.2.840.10008.1.2.4.81";

/// Explicit VR little endian (uncompressed).
pub const EXPLICIT_VR_LITTLE_ENDIAN: &'static str = "1.2.840.10008.1.2.1";

/// Implicit VR little endian (uncompressed).
pub const IMPLICIT_VR_LITTLE_ENDIAN: &'static str = "1.2.840.10008.1.2";

} // verus!
