//! Tests for image values, configuration and modality rules.

use medimg_compress::config::{CompressionCodec, CompressionConfig, Modality, QualityPreset};
use medimg_compress::version::full_version;
use medimg_compress::ImageData;

#[test]
fn test_image_data_expected_size() {
    let image = ImageData::new(512, 512, 16, 1, vec![0; 512 * 512 * 2]);
    assert_eq!(image.expected_size(), 512 * 512 * 2);
}

#[test]
fn test_image_data_validation() {
    let image = ImageData::new(64, 64, 8, 1, vec![0; 64 * 64]);
    assert!(image.validate().is_ok());

    let bad_image = ImageData::new(64, 64, 8, 1, vec![0; 100]);
    assert!(bad_image.validate().is_err());
}

#[test]
fn test_modality_detection() {
    assert_eq!(Modality::from_dicom_string("CT"), Modality::CT);
    assert_eq!(Modality::from_dicom_string("MR"), Modality::MR);
    assert_eq!(Modality::from_dicom_string("MG"), Modality::MG);
    assert!(Modality::MG.requires_lossless());
    assert!(!Modality::CT.requires_lossless());
}

#[test]
fn test_modality_trim_and_case() {
    assert_eq!(Modality::from_dicom_string("  ct "), Modality::CT);
    assert_eq!(Modality::from_dicom_string("PET"), Modality::PT);
    assert_eq!(Modality::from_dicom_string("MRI"), Modality::MR);
    assert_eq!(Modality::from_dicom_string("XYZ"), Modality::Other);
    assert_eq!(Modality::from_dicom_string(""), Modality::Other);
}

#[test]
fn test_compression_config_validation() {
    let config = CompressionConfig::lossy(CompressionCodec::Jpeg2000, 10);
    assert!(config.validate_for_modality(Modality::MG).is_err());
    assert!(config.validate_for_modality(Modality::CT).is_ok());

    let lossless = CompressionConfig::lossless(CompressionCodec::Jpeg2000);
    assert!(lossless.validate_for_modality(Modality::MG).is_ok());
}

#[test]
fn test_config_override_bypasses_safety_check() {
    let mut config = CompressionConfig::lossy(CompressionCodec::Jpeg2000, 10);
    config.override_safety_checks = true;
    assert!(config.validate_for_modality(Modality::MG).is_ok());
}

#[test]
fn test_recommended_codec() {
    assert_eq!(Modality::NM.recommended_codec(), CompressionCodec::JpegLs);
    assert_eq!(Modality::CT.recommended_codec(), CompressionCodec::Jpeg2000);
}

#[test]
fn test_quality_preset_values() {
    assert_eq!(QualityPreset::Diagnostic.quality_layers(), 1);
    assert_eq!(QualityPreset::HighQuality.quality_layers(), 5);
    assert_eq!(QualityPreset::Standard.target_ratio(), Some(20));
    assert_eq!(QualityPreset::Diagnostic.target_ratio(), None);
}

#[test]
fn test_full_version() {
    assert_eq!(full_version(), "medimg_compress 0.1.0");
}
