//! Compression workflow over in-memory images: codec selection, capability
//! checking, encoding, and round-trip verification of lossless results.
//! File handling and batch orchestration live in the surrounding
//! application.

use vstd::prelude::*;

use crate::codec::jpeg2000::spec_j2k_capabilities;
use crate::codec::traits::spec_can_encode;
use crate::codec::{
    spec_any_decoded, spec_any_encoded, spec_any_parses, spec_codec_created, AnyCodec,
    CodecFactory,
};
use crate::config::{CompressionConfig, CompressionMode};
use crate::dicom::DicomMetadata;
use crate::error::MedImgError;
use crate::{spec_bytes_per_sample, spec_expected_size, ImageData};

verus! {

/// Statistics for batch compression operations.
#[derive(Debug, Default)]
pub struct BatchStats {
    /// Total files processed.
    pub total_files: usize,
    /// Successfully compressed files.
    pub successful: usize,
    /// Failed files.
    pub failed: usize,
    /// Skipped files.
    pub skipped: usize,
    /// Total original size.
    pub total_original_bytes: usize,
    /// Total compressed size.
    pub total_compressed_bytes: usize,
    /// Total processing time in milliseconds.
    pub total_time_ms: u64,
}

/// Whether two byte vectors hold the same bytes.
fn bytes_equal(a: &Vec<u8>, b: &Vec<u8>) -> (r: bool)
    ensures
        r == (a@ == b@),
{
    let n = a.len();
    if n != b.len() {
        proof {
            assert(a@ != b@);
        }
        return false;
    }
    let mut i: usize = 0;
    while i < n
        invariant
            0 <= i <= n,
            n == a@.len() == b@.len(),
            forall|j: int| 0 <= j < i ==> a@[j] == b@[j],
        decreases n - i,
    {
        if a[i] != b[i] {
            return false;
        }
        i = i + 1;
    }
    proof {
        assert(a@ =~= b@);
    }
    true
}

/// Compression pipeline for processing images under one configuration.
pub struct CompressionPipeline {
    /// Compression configuration.
    pub config: CompressionConfig,
    /// Whether to perform a dry run (no actual file writing).
    pub is_dry_run: bool,
}

impl CompressionPipeline {
    /// Create a new compression pipeline with the given configuration.
    pub fn new(config: CompressionConfig) -> (r: Self)
        ensures
            r.config == config,
            !r.is_dry_run,
    {
        Self { config, is_dry_run: false }
    }

    /// Set dry-run mode.
    pub fn dry_run(self, dry_run: bool) -> (r: Self)
        ensures
            r == (Self { is_dry_run: dry_run, ..self }),
    {
        Self { is_dry_run: dry_run, ..self }
    }

    /// Verify lossless compression by a round-trip decode: succeeds exactly
    /// when the compressed data decodes and the decoded bytes equal the
    /// original pixel bytes.
    pub fn verify_lossless(
        &self,
        codec: &AnyCodec,
        compressed: &[u8],
        original: &ImageData,
    ) -> (r: Result<(), MedImgError>)
        requires
            1 <= original.bits_per_sample,
            (original.height as int) * (original.samples_per_pixel as int) <= usize::MAX,
            (original.width as int) * ((original.height as int) * (
            original.samples_per_pixel as int)) * spec_bytes_per_sample(
                original.bits_per_sample,
            ) <= usize::MAX,
        ensures
            r is Ok <==> (spec_any_parses(*codec, compressed@) && spec_any_decoded(
                *codec,
                compressed@,
                original.bits_per_sample,
                original.width,
                original.height,
                original.samples_per_pixel,
            ) == original.pixel_data@),
            r matches Err(e) ==> (e is Codec || e is Validation),
    {
        let decoded = match codec.decode(
            compressed,
            original.width,
            original.height,
            original.bits_per_sample,
            original.samples_per_pixel,
        ) {
            Ok(v) => v,
            Err(e) => {
                return Err(e);
            },
        };
        if !bytes_equal(&decoded.pixel_data, &original.pixel_data) {
            return Err(
                MedImgError::Validation(
                    "Lossless verification failed: decoded data differs from original".to_owned(),
                ),
            );
        }
        Ok(())
    }

    /// Compress an in-memory image: reject images outside the codec's
    /// capabilities, encode, and round-trip verify when lossless
    /// verification is configured.
    pub fn compress_image(&self, image: &ImageData) -> (r: Result<Vec<u8>, MedImgError>)
        requires
            1 <= image.bits_per_sample <= 16,
            image.samples_per_pixel <= 255,
            (image.height as int) * (image.samples_per_pixel as int) <= usize::MAX,
            (image.width as int) * ((image.height as int) * (image.samples_per_pixel as int))
                * spec_bytes_per_sample(image.bits_per_sample) <= usize::MAX,
        ensures
            !spec_can_encode(spec_j2k_capabilities(), *image) ==> (r matches Err(e)
                && e is Codec),
            r matches Ok(v) ==> v@ == spec_any_encoded(
                spec_codec_for(self.config),
                *image,
                self.config,
            ),
            (spec_can_encode(spec_j2k_capabilities(), *image) && !(
            spec_codec_for(self.config) is Uncompressed) && (image.width == 0 || image.height
                == 0 || image.pixel_data@.len() == 0 || (image.pixel_data@.len() as int)
                < spec_expected_size(
                image.width,
                image.height,
                image.bits_per_sample,
                image.samples_per_pixel,
            ))) ==> (r matches Err(e) && e is ImageData),
            (spec_can_encode(spec_j2k_capabilities(), *image) && !(self.config.verify_compression
                && self.config.mode == CompressionMode::Lossless) && (
            spec_codec_for(self.config) is Uncompressed || (image.width != 0 && image.height != 0
                && image.pixel_data@.len() > 0 && (image.pixel_data@.len() as int)
                >= spec_expected_size(
                image.width,
                image.height,
                image.bits_per_sample,
                image.samples_per_pixel,
            )))) ==> r is Ok,
    {
        let codec = CodecFactory::for_config(&self.config);
        proof {
            assert(codec == spec_codec_for(self.config));
        }
        if !codec.can_encode(image) {
            return Err(MedImgError::Codec("Codec cannot encode this image".to_owned()));
        }
        let compressed = match codec.encode(image, &self.config) {
            Ok(v) => v,
            Err(e) => {
                return Err(e);
            },
        };
        if self.config.verify_compression && self.config.mode == CompressionMode::Lossless {
            match self.verify_lossless(&codec, compressed.as_slice(), image) {
                Ok(()) => {},
                Err(e) => {
                    return Err(e);
                },
            }
        }
        Ok(compressed)
    }

    /// Decompress data back to an image, with geometry from metadata.
    pub fn decompress(&self, data: &[u8], metadata: &DicomMetadata) -> (r: Result<
        ImageData,
        MedImgError,
    >)
        requires
            1 <= metadata.bits_stored,
            (metadata.height as int) * (metadata.samples_per_pixel as int) <= usize::MAX,
            (metadata.width as int) * ((metadata.height as int) * (
            metadata.samples_per_pixel as int)) * spec_bytes_per_sample(
                metadata.bits_stored,
            ) <= usize::MAX,
        ensures
            r is Ok <==> spec_any_parses(spec_codec_for(self.config), data@),
            r matches Ok(img) ==> (img.width == metadata.width && img.height == metadata.height
                && img.bits_per_sample == metadata.bits_stored && img.samples_per_pixel
                == metadata.samples_per_pixel && img.pixel_data@ == spec_any_decoded(
                spec_codec_for(self.config),
                data@,
                metadata.bits_stored,
                metadata.width,
                metadata.height,
                metadata.samples_per_pixel,
            )),
    {
        let codec = CodecFactory::for_config(&self.config);
        proof {
            assert(codec == spec_codec_for(self.config));
        }
        codec.decode(
            data,
            metadata.width,
            metadata.height,
            metadata.bits_stored,
            metadata.samples_per_pixel,
        )
    }
}

/// The codec a configuration selects.
pub open spec fn spec_codec_for(cfg: CompressionConfig) -> AnyCodec {
    spec_codec_created(cfg.codec)
}

/// Builder for creating compression pipelines with custom settings.
pub struct PipelineBuilder {
    /// Compression configuration.
    pub config: CompressionConfig,
    /// Whether to perform a dry run.
    pub is_dry_run: bool,
}

impl PipelineBuilder {
    /// Create a new pipeline builder with default settings.
    pub fn new() -> (r: Self)
        ensures
            r.config.codec == crate::config::CompressionCodec::Jpeg2000,
            r.config.mode == CompressionMode::Lossless,
            !r.is_dry_run,
    {
        Self { config: Default::default(), is_dry_run: false }
    }

    /// Set the compression configuration.
    pub fn config(self, config: CompressionConfig) -> (r: Self)
        ensures
            r.config == config,
            r.is_dry_run == self.is_dry_run,
    {
        Self { config, ..self }
    }

    /// Enable or disable dry-run mode.
    pub fn dry_run(self, dry_run: bool) -> (r: Self)
        ensures
            r == (Self { is_dry_run: dry_run, ..self }),
    {
        Self { is_dry_run: dry_run, ..self }
    }

    /// Build the compression pipeline.
    pub fn build(self) -> (r: CompressionPipeline)
        ensures
            r.config == self.config,
            r.is_dry_run == self.is_dry_run,
    {
        CompressionPipeline { config: self.config, is_dry_run: self.is_dry_run }
    }
}

} // verus!
