//! Medical image compression library.
//!
//! Compresses and decompresses raster medical-image pixel buffers into two
//! binary container formats — a transform-style container and a
//! prediction-style container — under a shared codec abstraction, with
//! lossless, lossy and near-lossless operating modes.
//!
//! The central guarantees are stated and proved alongside the codecs:
//! bit-exact lossless round trips at both bit depths for both containers
//! (`codec::jpeg2000::lemma_j2k_lossless_round_trip`,
//! `codec::jpegls::lemma_jls_lossless_round_trip`), bounded per-sample
//! error in near-lossless mode (`codec::jpegls::lemma_jls_near_lossless_bound`
//! and its 16-bit counterpart), and the marker invariants of both container
//! framings (`codec::jpeg2000::lemma_j2k_codestream_markers`,
//! `codec::jpegls::lemma_jls_codestream_markers`).

use vstd::prelude::*;
use vstd::string::StringExecFns;

verus! {

/// Image data structure for compression.
#[derive(Debug, Clone)]
pub struct ImageData {
    /// Image width in pixels.
    pub width: u32,
    /// Image height in pixels.
    pub height: u32,
    /// Bits per sample (typically 8 or 16 for medical images).
    pub bits_per_sample: u16,
    /// Samples per pixel (1 for grayscale, 3 for RGB).
    pub samples_per_pixel: u16,
    /// Raw pixel data, little-endian for multi-byte samples.
    pub pixel_data: Vec<u8>,
    /// Photometric interpretation (e.g., "MONOCHROME2", "RGB").
    pub photometric_interpretation: String,
    /// Whether pixel values are signed.
    pub is_signed: bool,
}

/// Number of bytes each sample occupies for a given bit depth.
pub open spec fn spec_bytes_per_sample(bits_per_sample: u16) -> int {
    (bits_per_sample + 7) / 8
}

/// The number of bytes a buffer with this geometry must hold.
pub open spec fn spec_expected_size(
    width: u32,
    height: u32,
    bits_per_sample: u16,
    samples_per_pixel: u16,
) -> int {
    width * height * samples_per_pixel * spec_bytes_per_sample(bits_per_sample)
}

/// Compute the expected pixel-buffer size in a type wide enough that the
/// product of any admissible geometry fits.
pub fn expected_size_u128(
    width: u32,
    height: u32,
    bits_per_sample: u16,
    samples_per_pixel: u16,
) -> (r: u128)
    ensures
        r == spec_expected_size(width, height, bits_per_sample, samples_per_pixel),
{
    let w = width as u128;
    let h = height as u128;
    let spp = samples_per_pixel as u128;
    let bps = ((bits_per_sample as u128) + 7) / 8;
    proof {
        assert(w * h <= 0xffff_ffff_ffff_ffff_ffff_ffff_ffff_ffffu128
            && w * h * spp <= 0xffff_ffff_ffff_ffff_ffff_ffff_ffff_ffffu128
            && w * h * spp * bps <= 0xffff_ffff_ffff_ffff_ffff_ffff_ffff_ffffu128)
            by (nonlinear_arith)
            requires
                w < 0x1_0000_0000,
                h < 0x1_0000_0000,
                spp < 0x1_0000,
                0 <= bps <= 0x2000,
        ;
    }
    w * h * spp * bps
}

impl ImageData {
    /// The geometry invariant: the pixel buffer holds exactly the bytes the
    /// declared width, height, samples per pixel and bit depth require.
    pub open spec fn geometry_matches(&self) -> bool {
        self.pixel_data.len() == spec_expected_size(
            self.width,
            self.height,
            self.bits_per_sample,
            self.samples_per_pixel,
        )
    }

    /// Create a new ImageData instance.
    pub fn new(
        width: u32,
        height: u32,
        bits_per_sample: u16,
        samples_per_pixel: u16,
        pixel_data: Vec<u8>,
    ) -> (r: Self)
        ensures
            r.width == width,
            r.height == height,
            r.bits_per_sample == bits_per_sample,
            r.samples_per_pixel == samples_per_pixel,
            r.pixel_data == pixel_data,
            r.photometric_interpretation@ == Seq::<char>::empty(),
            !r.is_signed,
    {
        Self {
            width,
            height,
            bits_per_sample,
            samples_per_pixel,
            pixel_data,
            photometric_interpretation: String::new(),
            is_signed: false,
        }
    }

    /// Calculate the expected size of pixel data in bytes.
    pub fn expected_size(&self) -> (r: usize)
        requires
            spec_expected_size(
                self.width,
                self.height,
                self.bits_per_sample,
                self.samples_per_pixel,
            ) <= usize::MAX,
        ensures
            r == spec_expected_size(
                self.width,
                self.height,
                self.bits_per_sample,
                self.samples_per_pixel,
            ),
    {
        let expected = expected_size_u128(
            self.width,
            self.height,
            self.bits_per_sample,
            self.samples_per_pixel,
        );
        expected as usize
    }

    /// Validate that pixel data size matches the expected size; an
    /// `ImageData`-class error reports the expected and actual byte counts.
    pub fn validate(&self) -> (r: Result<(), crate::error::MedImgError>)
        ensures
            r is Ok <==> self.geometry_matches(),
            r matches Err(e) ==> (e is ImageData && e->ImageData_0@
                == "Pixel data size mismatch: expected "@ + crate::text::spec_decimal(
                spec_expected_size(
                    self.width,
                    self.height,
                    self.bits_per_sample,
                    self.samples_per_pixel,
                ),
            ) + " bytes, got "@ + crate::text::spec_decimal(self.pixel_data@.len() as int)),
    {
        let expected = expected_size_u128(
            self.width,
            self.height,
            self.bits_per_sample,
            self.samples_per_pixel,
        );
        if self.pixel_data.len() as u128 != expected {
            let mut message = "Pixel data size mismatch: expected ".to_owned();
            crate::text::append_decimal(&mut message, expected);
            message.append(" bytes, got ");
            crate::text::append_decimal(&mut message, self.pixel_data.len() as u128);
            return Err(crate::error::MedImgError::ImageData(message));
        }
        Ok(())
    }
}

} // verus!

pub mod batch;
pub mod codec;
pub mod config;
pub mod dicom;
pub mod error;
pub mod metrics;
pub mod pipeline;
pub mod progress;
pub mod text;
pub mod version;
