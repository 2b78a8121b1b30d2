//! Codec description records.

use vstd::prelude::*;

verus! {

/// Information about a codec.
#[derive(Debug, Clone)]
pub struct CodecInfo {
    /// Human-readable codec name.
    pub name: &'static str,
    /// Codec version string.
    pub version: &'static str,
    /// Whether lossless compression is supported.
    pub supports_lossless: bool,
    /// Whether lossy compression is supported.
    pub supports_lossy: bool,
    /// Whether progressive/multi-resolution decoding is supported.
    pub supports_progressive: bool,
    /// Whether region-of-interest encoding is supported.
    pub supports_roi: bool,
    /// Transfer syntax identifier for lossless mode.
    pub transfer_syntax_lossless: Option<&'static str>,
    /// Transfer syntax identifier for lossy mode.
    pub transfer_syntax_lossy: Option<&'static str>,
}

/// Codec capabilities for image formats.
#[derive(Debug, Clone)]
pub struct CodecCapabilities {
    /// Maximum supported bits per sample.
    pub max_bits_per_sample: u16,
    /// Whether signed pixel values are supported.
    pub supports_signed: bool,
    /// Whether color images are supported.
    pub supports_color: bool,
    /// Whether multi-frame images are supported.
    pub supports_multiframe: bool,
}

/// Whether a codec with the given capabilities can encode an image: the bit
/// depth must be within the declared maximum, and color or signed usage must
/// be within the declared support.
pub open spec fn spec_can_encode(caps: CodecCapabilities, image: crate::ImageData) -> bool {
    &&& image.bits_per_sample <= caps.max_bits_per_sample
    &&& (image.samples_per_pixel == 1 || caps.supports_color)
    &&& (!image.is_signed || caps.supports_signed)
}

impl CodecCapabilities {
    /// Check an image against these capabilities.
    pub fn allows(&self, image: &crate::ImageData) -> (r: bool)
        ensures
            r == spec_can_encode(*self, *image),
    {
        image.bits_per_sample <= self.max_bits_per_sample
            && (image.samples_per_pixel == 1 || self.supports_color)
            && (!image.is_signed || self.supports_signed)
    }
}

impl CodecInfo {
    /// The transfer syntax identifier for the given compression mode.
    pub fn transfer_syntax_for(&self, lossless: bool) -> (r: Option<&'static str>)
        ensures
            r == if lossless {
                self.transfer_syntax_lossless
            } else {
                self.transfer_syntax_lossy
            },
    {
        if lossless {
            self.transfer_syntax_lossless
        } else {
            self.transfer_syntax_lossy
        }
    }
}

} // verus!
