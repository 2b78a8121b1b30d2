//! Tests for the compression pipeline, metrics validation, metadata
//! utilities and progress phases.

use medimg_compress::config::{CompressionCodec, CompressionConfig, Modality};
use medimg_compress::dicom::{
    calculate_pixel_data_size, is_lossless_transfer_syntax, transfer_syntax_name, DicomMetadata,
};
use medimg_compress::error::MedImgError;
use medimg_compress::metrics::validate_images;
use medimg_compress::pipeline::{CompressionPipeline, PipelineBuilder};
use medimg_compress::progress::{NullProgress, ProgressPhase};
use medimg_compress::ImageData;

fn create_test_image(width: u32, height: u32, bits: u16, value: u8) -> ImageData {
    let bytes_per_sample = ((bits + 7) / 8) as usize;
    let size = width as usize * height as usize * bytes_per_sample;
    let mut image = ImageData::new(width, height, bits, 1, vec![value; size]);
    image.photometric_interpretation = "MONOCHROME2".to_string();
    image
}

fn test_metadata(width: u32, height: u32) -> DicomMetadata {
    DicomMetadata {
        patient_id: None,
        study_uid: None,
        series_uid: None,
        sop_instance_uid: None,
        modality: Modality::CT,
        transfer_syntax: "1.2.840.10008.1.2.1".to_string(),
        width,
        height,
        bits_allocated: 8,
        bits_stored: 8,
        high_bit: 7,
        samples_per_pixel: 1,
        photometric_interpretation: "MONOCHROME2".to_string(),
        pixel_representation: 0,
        number_of_frames: 1,
        planar_configuration: 0,
    }
}

#[test]
fn test_validate_images_matching() {
    let img1 = create_test_image(64, 64, 8, 128);
    let img2 = create_test_image(64, 64, 8, 100);
    assert!(validate_images(&img1, &img2).is_ok());
}

#[test]
fn test_validate_images_dimension_mismatch() {
    let img1 = create_test_image(64, 64, 8, 128);
    let img2 = create_test_image(32, 32, 8, 128);
    assert!(validate_images(&img1, &img2).is_err());
}

#[test]
fn test_pipeline_lossless_with_verification() {
    let config = CompressionConfig::lossless(CompressionCodec::JpegLs);
    let pipeline = CompressionPipeline::new(config);
    let image = create_test_image(16, 16, 8, 77);
    let compressed = pipeline.compress_image(&image).unwrap();

    let metadata = test_metadata(16, 16);
    let decoded = pipeline.decompress(&compressed, &metadata).unwrap();
    assert_eq!(decoded.pixel_data, image.pixel_data);
}

#[test]
fn test_pipeline_transform_lossless_verified() {
    let config = CompressionConfig::lossless(CompressionCodec::Jpeg2000);
    let pipeline = CompressionPipeline::new(config);
    let image = create_test_image(8, 8, 8, 100);
    let compressed = pipeline.compress_image(&image).unwrap();
    let metadata = test_metadata(8, 8);
    let decoded = pipeline.decompress(&compressed, &metadata).unwrap();
    assert_eq!(decoded.pixel_data, image.pixel_data);
}

#[test]
fn test_pipeline_builder() {
    let config = CompressionConfig::lossless(CompressionCodec::JpegLs);
    let pipeline = PipelineBuilder::new().config(config).dry_run(true).build();
    assert!(pipeline.is_dry_run);
    assert_eq!(pipeline.config.codec, CompressionCodec::JpegLs);
}

#[test]
fn test_calculate_pixel_data_size() {
    let metadata = test_metadata(512, 512);
    assert_eq!(calculate_pixel_data_size(&metadata), 512 * 512);
}

#[test]
fn test_is_lossless_transfer_syntax() {
    assert!(is_lossless_transfer_syntax("1.2.840.10008.1.2.4.90"));
    assert!(is_lossless_transfer_syntax("1.2.840.10008.1.2.1"));
    assert!(!is_lossless_transfer_syntax("1.2.840.10008.1.2.4.91"));
}

#[test]
fn test_transfer_syntax_name() {
    assert_eq!(transfer_syntax_name("1.2.840.10008.1.2.4.90"), "JPEG 2000 Lossless");
    assert_eq!(transfer_syntax_name("1.2.840.10008.1.2.4.81"), "JPEG-LS Near-Lossless");
    assert_eq!(transfer_syntax_name("not.a.real.uid"), "Unknown");
}

#[test]
fn test_error_message_access() {
    let e = MedImgError::Codec("something went wrong".to_string());
    assert_eq!(e.message(), "something went wrong");
}

#[test]
fn test_progress_phase_display() {
    assert_eq!(ProgressPhase::Encoding.description(), "Compressing");
    assert_eq!(ProgressPhase::Complete.description(), "Complete");
}

#[test]
fn test_progress_phase_is_terminal() {
    assert!(ProgressPhase::Complete.is_terminal());
    assert!(ProgressPhase::Failed.is_terminal());
    assert!(!ProgressPhase::Encoding.is_terminal());
}

#[test]
fn test_null_progress_never_cancels() {
    let progress = NullProgress;
    assert!(!progress.is_cancelled());
}
