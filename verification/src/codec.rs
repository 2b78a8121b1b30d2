//! Codec implementations for medical image compression: the transform-style
//! and prediction-style container codecs, an uncompressed passthrough, and a
//! factory that selects one from configuration.

use vstd::prelude::*;
use vstd::slice::slice_to_vec;

pub mod bytes;
pub mod jpeg2000;
pub mod jpegls;
pub mod traits;

use crate::codec::jpeg2000::{
    spec_j2k_capabilities, spec_j2k_codestream, spec_j2k_decoded, spec_j2k_parses, Jpeg2000Codec,
};
use crate::codec::jpegls::{
    spec_jls_capabilities, spec_jls_codestream, spec_jls_decoded, spec_jls_near,
    spec_jls_parses, JpegLsCodec,
};
use crate::codec::traits::{spec_can_encode, CodecCapabilities, CodecInfo};
use crate::config::{transfer_syntax, CompressionCodec, CompressionConfig};
use crate::error::MedImgError;
use crate::{spec_bytes_per_sample, spec_expected_size, ImageData};

verus! {

/// Passthrough codec for uncompressed data.
pub struct UncompressedCodec;

impl UncompressedCodec {
    /// Encoding is an identity copy of the pixel bytes.
    pub fn encode(&self, image: &ImageData, config: &CompressionConfig) -> (r: Result<
        Vec<u8>,
        MedImgError,
    >)
        ensures
            r matches Ok(v) && v@ == image.pixel_data@,
    {
        Ok(slice_to_vec(image.pixel_data.as_slice()))
    }

    /// Decoding wraps the raw bytes back into an image value unchanged.
    pub fn decode(
        &self,
        data: &[u8],
        width: u32,
        height: u32,
        bits_per_sample: u16,
        samples_per_pixel: u16,
    ) -> (r: Result<ImageData, MedImgError>)
        ensures
            r matches Ok(img) && img.width == width && img.height == height
                && img.bits_per_sample == bits_per_sample && img.samples_per_pixel
                == samples_per_pixel && !img.is_signed && img.pixel_data@ == data@,
    {
        Ok(
            ImageData {
                width,
                height,
                bits_per_sample,
                samples_per_pixel,
                pixel_data: slice_to_vec(data),
                photometric_interpretation: String::new(),
                is_signed: false,
            },
        )
    }

    /// Codec description.
    pub fn info(&self) -> (r: CodecInfo)
        ensures
            r.name@ == "Uncompressed"@,
            r.supports_lossless,
            !r.supports_lossy,
            r.transfer_syntax_lossless matches Some(s) && s@ == "1.2.840.10008.1.2.1"@,
            r.transfer_syntax_lossy is None,
    {
        proof {
            reveal_strlit("1.2.840.10008.1.2.1");
        }
        CodecInfo {
            name: "Uncompressed",
            version: "1.0",
            supports_lossless: true,
            supports_lossy: false,
            supports_progressive: false,
            supports_roi: false,
            transfer_syntax_lossless: Some(transfer_syntax::EXPLICIT_VR_LITTLE_ENDIAN),
            transfer_syntax_lossy: None,
        }
    }

    /// Codec capabilities.
    pub fn capabilities(&self) -> (r: CodecCapabilities)
        ensures
            r == spec_j2k_capabilities(),
    {
        CodecCapabilities {
            max_bits_per_sample: 16,
            supports_signed: true,
            supports_color: true,
            supports_multiframe: true,
        }
    }
}

/// A codec selected by the factory: a closed set dispatched by match.
pub enum AnyCodec {
    /// The transform-style container codec.
    Jpeg2000(Jpeg2000Codec),
    /// The prediction-style container codec.
    JpegLs(JpegLsCodec),
    /// The passthrough codec.
    Uncompressed(UncompressedCodec),
}

/// The codestream an encode call produces when it succeeds.
pub open spec fn spec_any_encoded(c: AnyCodec, img: ImageData, cfg: CompressionConfig) -> Seq<
    u8,
> {
    match c {
        AnyCodec::Jpeg2000(_) => spec_j2k_codestream(img, cfg),
        AnyCodec::JpegLs(_) => spec_jls_codestream(img, spec_jls_near(cfg)),
        AnyCodec::Uncompressed(_) => img.pixel_data@,
    }
}

/// What a decode call yields when it succeeds.
pub open spec fn spec_any_decoded(
    c: AnyCodec,
    d: Seq<u8>,
    bits_per_sample: u16,
    width: u32,
    height: u32,
    samples_per_pixel: u16,
) -> Seq<u8> {
    match c {
        AnyCodec::Jpeg2000(_) => spec_j2k_decoded(d, bits_per_sample),
        AnyCodec::JpegLs(_) => spec_jls_decoded(d, width, height, samples_per_pixel, bits_per_sample),
        AnyCodec::Uncompressed(_) => d,
    }
}

/// Whether a decode call succeeds.
pub open spec fn spec_any_parses(c: AnyCodec, d: Seq<u8>) -> bool {
    match c {
        AnyCodec::Jpeg2000(_) => spec_j2k_parses(d),
        AnyCodec::JpegLs(_) => spec_jls_parses(d),
        AnyCodec::Uncompressed(_) => true,
    }
}

impl AnyCodec {
    /// Encode image data with the selected codec.  The container codecs
    /// validate geometry first: zero dimensions, an empty buffer, or a
    /// buffer smaller than the geometry requires are image-data errors; the
    /// passthrough accepts anything.
    pub fn encode(&self, image: &ImageData, config: &CompressionConfig) -> (r: Result<
        Vec<u8>,
        MedImgError,
    >)
        requires
            1 <= image.bits_per_sample <= 16,
            image.samples_per_pixel <= 255,
        ensures
            self is Uncompressed ==> (r matches Ok(v) && v@ == image.pixel_data@),
            !(self is Uncompressed) ==> {
                &&& (image.width == 0 || image.height == 0) ==> (r matches Err(e)
                    && e is ImageData)
                &&& (image.width != 0 && image.height != 0 && image.pixel_data@.len() == 0)
                    ==> (r matches Err(e) && e is ImageData)
                &&& (image.width != 0 && image.height != 0 && image.pixel_data@.len() > 0 && (
                image.pixel_data@.len() as int) < spec_expected_size(
                    image.width,
                    image.height,
                    image.bits_per_sample,
                    image.samples_per_pixel,
                )) ==> (r matches Err(e) && e is ImageData)
                &&& (image.width != 0 && image.height != 0 && image.pixel_data@.len() > 0 && (
                image.pixel_data@.len() as int) >= spec_expected_size(
                    image.width,
                    image.height,
                    image.bits_per_sample,
                    image.samples_per_pixel,
                )) ==> (r matches Ok(v) && v@ == spec_any_encoded(*self, *image, *config))
            },
    {
        match self {
            AnyCodec::Jpeg2000(c) => c.encode(image, config),
            AnyCodec::JpegLs(c) => c.encode(image, config),
            AnyCodec::Uncompressed(c) => c.encode(image, config),
        }
    }

    /// Decode compressed data with the selected codec.
    pub fn decode(
        &self,
        data: &[u8],
        width: u32,
        height: u32,
        bits_per_sample: u16,
        samples_per_pixel: u16,
    ) -> (r: Result<ImageData, MedImgError>)
        requires
            1 <= bits_per_sample,
            (height as int) * (samples_per_pixel as int) <= usize::MAX,
            (width as int) * ((height as int) * (samples_per_pixel as int))
                * spec_bytes_per_sample(bits_per_sample) <= usize::MAX,
        ensures
            r is Ok <==> spec_any_parses(*self, data@),
            r matches Err(e) ==> e is Codec,
            r matches Ok(img) ==> (img.width == width && img.height == height
                && img.bits_per_sample == bits_per_sample && img.samples_per_pixel
                == samples_per_pixel && !img.is_signed && img.pixel_data@ == spec_any_decoded(
                *self,
                data@,
                bits_per_sample,
                width,
                height,
                samples_per_pixel,
            )),
    {
        match self {
            AnyCodec::Jpeg2000(c) => c.decode(data, width, height, bits_per_sample, samples_per_pixel),
            AnyCodec::JpegLs(c) => c.decode(data, width, height, bits_per_sample, samples_per_pixel),
            AnyCodec::Uncompressed(c) => c.decode(data, width, height, bits_per_sample, samples_per_pixel),
        }
    }

    /// Codec description.
    pub fn info(&self) -> (r: CodecInfo)
        ensures
            self is Jpeg2000 ==> r.name@ == "JPEG 2000"@,
            self is JpegLs ==> r.name@ == "JPEG-LS"@,
            self is Uncompressed ==> r.name@ == "Uncompressed"@,
    {
        match self {
            AnyCodec::Jpeg2000(c) => c.info(),
            AnyCodec::JpegLs(c) => c.info(),
            AnyCodec::Uncompressed(c) => c.info(),
        }
    }

    /// Codec capabilities; every implementation declares the same limits.
    pub fn capabilities(&self) -> (r: CodecCapabilities)
        ensures
            r == spec_j2k_capabilities(),
    {
        match self {
            AnyCodec::Jpeg2000(c) => c.capabilities(),
            AnyCodec::JpegLs(c) => {
                let r = c.capabilities();
                proof {
                    assert(spec_jls_capabilities() == spec_j2k_capabilities());
                }
                r
            },
            AnyCodec::Uncompressed(c) => c.capabilities(),
        }
    }

    /// Whether the selected codec can encode the given image.
    pub fn can_encode(&self, image: &ImageData) -> (r: bool)
        ensures
            r == spec_can_encode(spec_j2k_capabilities(), *image),
    {
        let caps = self.capabilities();
        caps.allows(image)
    }

    /// The transfer syntax identifier for the given mode, when the codec
    /// defines one.
    pub fn transfer_syntax_uid(&self, lossless: bool) -> (r: Option<&'static str>)
        ensures
            self is Jpeg2000 ==> (r matches Some(s) && s@ == if lossless {
                "1.2.840.10008.1.2.4.90"@
            } else {
                "1.2.840.10008.1.2.4.91"@
            }),
            self is JpegLs ==> (r matches Some(s) && s@ == if lossless {
                "1.2.840.10008.1.2.4.80"@
            } else {
                "1.2.840.10008.1.2.4.81"@
            }),
            self is Uncompressed ==> (if lossless {
                r matches Some(s) && s@ == "1.2.840.10008.1.2.1"@
            } else {
                r is None
            }),
    {
        let info = self.info();
        match self {
            AnyCodec::Jpeg2000(c) => c.transfer_syntax_uid(lossless),
            AnyCodec::JpegLs(c) => c.transfer_syntax_uid(lossless),
            AnyCodec::Uncompressed(c) => {
                let i = c.info();
                i.transfer_syntax_for(lossless)
            },
        }
    }
}

/// The codec instance the factory creates for each codec kind.
pub open spec fn spec_codec_created(codec_type: CompressionCodec) -> AnyCodec {
    match codec_type {
        CompressionCodec::Jpeg2000 => AnyCodec::Jpeg2000(Jpeg2000Codec { use_reversible: true }),
        CompressionCodec::JpegLs => AnyCodec::JpegLs(JpegLsCodec { near: 0 }),
        CompressionCodec::Uncompressed => AnyCodec::Uncompressed(UncompressedCodec),
    }
}

/// Factory for creating codec instances.
pub struct CodecFactory;

impl CodecFactory {
    /// Create a codec instance for the given codec kind.
    pub fn create(codec_type: CompressionCodec) -> (r: AnyCodec)
        ensures
            r == spec_codec_created(codec_type),
    {
        match codec_type {
            CompressionCodec::Jpeg2000 => AnyCodec::Jpeg2000(Jpeg2000Codec::new()),
            CompressionCodec::JpegLs => AnyCodec::JpegLs(JpegLsCodec::new()),
            CompressionCodec::Uncompressed => AnyCodec::Uncompressed(UncompressedCodec),
        }
    }

    /// Get the appropriate codec for the given configuration.
    pub fn for_config(config: &CompressionConfig) -> (r: AnyCodec)
        ensures
            r == spec_codec_created(config.codec),
    {
        Self::create(config.codec)
    }
}

} // verus!
