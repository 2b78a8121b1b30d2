//! Validation shared by the image-quality metrics.  The metric computations
//! themselves (signal-to-noise and structural similarity) are floating-point
//! work done by the surrounding application; the structural checks that two
//! images are comparable are defined here.

use vstd::prelude::*;

use crate::error::MedImgError;
use crate::ImageData;

verus! {

/// Whether two images agree in the fields that make a pixelwise comparison
/// meaningful.
pub open spec fn spec_images_comparable(a: ImageData, b: ImageData) -> bool {
    &&& a.width == b.width
    &&& a.height == b.height
    &&& a.bits_per_sample == b.bits_per_sample
    &&& a.samples_per_pixel == b.samples_per_pixel
    &&& a.pixel_data@.len() == b.pixel_data@.len()
}

/// Validate that two images can be compared: dimensions, bit depth,
/// component count and buffer length must all agree.
pub fn validate_images(original: &ImageData, compressed: &ImageData) -> (r: Result<
    (),
    MedImgError,
>)
    ensures
        r is Ok <==> spec_images_comparable(*original, *compressed),
        r matches Err(e) ==> e is ImageData,
{
    if original.width != compressed.width || original.height != compressed.height {
        return Err(MedImgError::ImageData("Image dimensions mismatch".to_owned()));
    }
    if original.bits_per_sample != compressed.bits_per_sample {
        return Err(MedImgError::ImageData("Bits per sample mismatch".to_owned()));
    }
    if original.samples_per_pixel != compressed.samples_per_pixel {
        return Err(MedImgError::ImageData("Samples per pixel mismatch".to_owned()));
    }
    if original.pixel_data.len() != compressed.pixel_data.len() {
        return Err(MedImgError::ImageData("Pixel data length mismatch".to_owned()));
    }
    Ok(())
}

} // verus!
