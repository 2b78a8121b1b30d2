//! Tests for the two container codecs, the passthrough codec and the
//! factory: round trips, marker framing, error classes and capability
//! gating.

use medimg_compress::codec::jpeg2000::Jpeg2000Codec;
use medimg_compress::codec::jpegls::JpegLsCodec;
use medimg_compress::codec::{AnyCodec, CodecFactory};
use medimg_compress::config::{CompressionCodec, CompressionConfig, CompressionMode};
use medimg_compress::error::MedImgError;
use medimg_compress::ImageData;

fn create_test_image(width: u32, height: u32, bits: u16) -> ImageData {
    let bytes_per_sample = ((bits + 7) / 8) as usize;
    let size = width as usize * height as usize * bytes_per_sample;
    let mut pixel_data = Vec::with_capacity(size);
    for i in 0..size {
        // a synthetic gradient whose first byte is large enough not to be
        // mistaken for a quantizer parameter by the transform decoder
        pixel_data.push((32 + i % 200) as u8);
    }
    ImageData::new(width, height, bits, 1, pixel_data)
}

#[test]
fn test_transform_lossless_gradient_roundtrip() {
    let codec = Jpeg2000Codec::lossless();
    let image = create_test_image(64, 64, 8);
    let config = CompressionConfig::lossless(CompressionCodec::Jpeg2000);

    let encoded = codec.encode(&image, &config).unwrap();
    let decoded = codec.decode(&encoded, 64, 64, 8, 1).unwrap();

    assert_eq!(image.pixel_data, decoded.pixel_data);
}

#[test]
fn test_transform_lossless_16bit_roundtrip() {
    let codec = Jpeg2000Codec::lossless();
    let image = create_test_image(32, 32, 16);
    let config = CompressionConfig::lossless(CompressionCodec::Jpeg2000);

    let encoded = codec.encode(&image, &config).unwrap();
    let decoded = codec.decode(&encoded, 32, 32, 16, 1).unwrap();

    assert_eq!(image.pixel_data, decoded.pixel_data);
}

#[test]
fn test_transform_marker_invariants() {
    let codec = Jpeg2000Codec::lossless();
    let image = create_test_image(16, 16, 8);
    let config = CompressionConfig::lossless(CompressionCodec::Jpeg2000);
    let encoded = codec.encode(&image, &config).unwrap();
    assert_eq!(&encoded[0..2], &[0xFF, 0x4F]);
    assert_eq!(&encoded[encoded.len() - 2..], &[0xFF, 0xD9]);

    let lossy = CompressionConfig::lossy(CompressionCodec::Jpeg2000, 10);
    let encoded_lossy = codec.encode(&image, &lossy).unwrap();
    assert_eq!(&encoded_lossy[0..2], &[0xFF, 0x4F]);
    assert_eq!(&encoded_lossy[encoded_lossy.len() - 2..], &[0xFF, 0xD9]);
}

#[test]
fn test_prediction_marker_invariants() {
    let codec = JpegLsCodec::lossless();
    let image = create_test_image(16, 16, 8);
    let config = CompressionConfig::lossless(CompressionCodec::JpegLs);
    let encoded = codec.encode(&image, &config).unwrap();
    assert_eq!(&encoded[0..2], &[0xFF, 0xD8]);
    assert_eq!(&encoded[encoded.len() - 2..], &[0xFF, 0xD9]);
}

#[test]
fn test_transform_lossy_quantizes_samples() {
    // with a target ratio of ten the quantizer discards two bits: the
    // payload holds the parameter byte, then each sample divided by four,
    // packed at six bits each into one zero-padded group of six bytes
    let codec = Jpeg2000Codec::lossy();
    let data: Vec<u8> = vec![32, 33, 100, 255];
    let encoded = codec.lossy_encode(&data, 8, 10).unwrap();
    assert_eq!(encoded, vec![2, 32, 134, 127, 0, 0, 0]);

    let decoded = codec.lossy_decode(&encoded, 8).unwrap();
    assert_eq!(decoded, vec![32, 32, 100, 252, 0, 0, 0, 0]);
}

#[test]
fn test_lossy_compression() {
    let codec = Jpeg2000Codec::lossy();
    let width = 64u32;
    let height = 64u32;
    let size = (width * height) as usize;
    let mut pixel_data = Vec::with_capacity(size);
    for i in 0..size {
        pixel_data.push((i % 256) as u8);
    }
    let mut image = ImageData::new(width, height, 8, 1, pixel_data);
    image.photometric_interpretation = "MONOCHROME2".to_string();
    let config = CompressionConfig::lossy(CompressionCodec::Jpeg2000, 10);

    let encoded = codec.encode(&image, &config).unwrap();

    // Lossy should produce smaller output
    assert!(encoded.len() < image.pixel_data.len());
}

#[test]
fn test_transform_delta_coding_exact() {
    let codec = Jpeg2000Codec::lossless();
    let data: Vec<u8> = vec![100, 101, 99, 255, 0];
    let encoded = codec.lossless_encode(&data, 8).unwrap();
    // first sample verbatim, then wrapping differences
    assert_eq!(encoded, vec![100, 1, 254, 156, 1]);
    let decoded = codec.lossless_decode(&encoded, 8).unwrap();
    assert_eq!(decoded, data);
}

#[test]
fn test_jpegls_lossless_roundtrip() {
    let codec = JpegLsCodec::lossless();
    let image = create_test_image(32, 32, 8);
    let config = CompressionConfig::lossless(CompressionCodec::JpegLs);

    let encoded = codec.encode(&image, &config).unwrap();
    let decoded = codec.decode(&encoded, 32, 32, 8, 1).unwrap();

    assert_eq!(image.pixel_data, decoded.pixel_data);
}

#[test]
fn test_prediction_lossless_16bit_roundtrip() {
    let codec = JpegLsCodec::lossless();
    let image = create_test_image(16, 16, 16);
    let config = CompressionConfig::lossless(CompressionCodec::JpegLs);

    let encoded = codec.encode(&image, &config).unwrap();
    let decoded = codec.decode(&encoded, 16, 16, 16, 1).unwrap();

    assert_eq!(image.pixel_data, decoded.pixel_data);
}

#[test]
fn test_jpegls_near_lossless() {
    let codec = JpegLsCodec::near_lossless(2);

    // Create a smooth gradient image (no wraparound discontinuities)
    let width = 32usize;
    let height = 32usize;
    let mut pixel_data = Vec::with_capacity(width * height);
    for y in 0..height {
        for x in 0..width {
            // Smooth gradient from 64 to 192
            let value = 64 + ((x + y) * 4) % 128;
            pixel_data.push(value as u8);
        }
    }
    let mut image = ImageData::new(width as u32, height as u32, 8, 1, pixel_data);
    image.photometric_interpretation = "MONOCHROME2".to_string();

    let mut config = CompressionConfig::default();
    config.mode = CompressionMode::NearLossless;
    config.near_lossless_error = 2;

    let encoded = codec.encode(&image, &config).unwrap();
    let decoded = codec.decode(&encoded, 32, 32, 8, 1).unwrap();

    // Near-lossless should have bounded differences
    let max_diff: u8 = image
        .pixel_data
        .iter()
        .zip(decoded.pixel_data.iter())
        .map(|(a, b)| (*a as i16 - *b as i16).unsigned_abs() as u8)
        .max()
        .unwrap_or(0);

    assert!(
        max_diff <= 2 * config.near_lossless_error + 1,
        "Max diff {} exceeds near-lossless bound {}",
        max_diff,
        2 * config.near_lossless_error + 1
    );
}

#[test]
fn test_prediction_near_lossless_16bit_bound() {
    let codec = JpegLsCodec::near_lossless(1);
    let width = 16usize;
    let height = 16usize;
    let mut pixel_data = Vec::with_capacity(width * height * 2);
    for y in 0..height {
        for x in 0..width {
            let value = (4096 + (x + y) * 64) as u16;
            pixel_data.extend_from_slice(&value.to_le_bytes());
        }
    }
    let image = ImageData::new(width as u32, height as u32, 16, 1, pixel_data);

    let mut config = CompressionConfig::default();
    config.codec = CompressionCodec::JpegLs;
    config.mode = CompressionMode::NearLossless;
    config.near_lossless_error = 1;

    let encoded = codec.encode(&image, &config).unwrap();
    let decoded = codec.decode(&encoded, 16, 16, 16, 1).unwrap();

    // the tolerance is scaled by 256 for 16-bit samples
    let max_diff: u32 = image
        .pixel_data
        .chunks_exact(2)
        .zip(decoded.pixel_data.chunks_exact(2))
        .map(|(a, b)| {
            let va = u16::from_le_bytes([a[0], a[1]]) as i32;
            let vb = u16::from_le_bytes([b[0], b[1]]) as i32;
            (va - vb).unsigned_abs()
        })
        .max()
        .unwrap_or(0);
    assert!(max_diff <= 256, "Max diff {} exceeds scaled tolerance", max_diff);
}

#[test]
fn test_prediction_multi_component_roundtrip() {
    // interleaved three-component pixels round-trip losslessly too: the
    // scan covers one row per image row and component
    let codec = JpegLsCodec::lossless();
    let width = 8u32;
    let height = 8u32;
    let size = (width * height * 3) as usize;
    let mut pixel_data = Vec::with_capacity(size);
    for i in 0..size {
        pixel_data.push((17 + i * 5 % 211) as u8);
    }
    let image = ImageData::new(width, height, 8, 3, pixel_data);
    let config = CompressionConfig::lossless(CompressionCodec::JpegLs);

    let encoded = codec.encode(&image, &config).unwrap();
    let decoded = codec.decode(&encoded, 8, 8, 8, 3).unwrap();

    assert_eq!(image.pixel_data, decoded.pixel_data);
}

#[test]
fn test_size_mismatch_message_names_counts() {
    let config = CompressionConfig::lossless(CompressionCodec::Jpeg2000);
    let image = ImageData::new(64, 64, 8, 1, vec![0; 100]);
    let j2k = Jpeg2000Codec::lossless();
    match j2k.encode(&image, &config) {
        Err(MedImgError::ImageData(m)) => {
            assert_eq!(m, "Pixel data size mismatch: expected at least 4096 bytes, got 100");
        }
        _ => panic!("expected an image-data error"),
    }
    match image.validate() {
        Err(MedImgError::ImageData(m)) => {
            assert_eq!(m, "Pixel data size mismatch: expected 4096 bytes, got 100");
        }
        _ => panic!("expected an image-data error"),
    }
}

#[test]
fn test_encode_empty_pixel_data_errors() {
    let config = CompressionConfig::lossless(CompressionCodec::Jpeg2000);
    let image = ImageData::new(64, 64, 8, 1, Vec::new());

    let j2k = Jpeg2000Codec::lossless();
    let r = j2k.encode(&image, &config);
    assert!(matches!(r, Err(MedImgError::ImageData(_))));

    let jls = JpegLsCodec::lossless();
    let r2 = jls.encode(&image, &config);
    assert!(matches!(r2, Err(MedImgError::ImageData(_))));
}

#[test]
fn test_encode_zero_dimensions_errors() {
    let config = CompressionConfig::lossless(CompressionCodec::Jpeg2000);
    let image = ImageData::new(0, 64, 8, 1, vec![1, 2, 3]);
    let j2k = Jpeg2000Codec::lossless();
    assert!(matches!(j2k.encode(&image, &config), Err(MedImgError::ImageData(_))));
}

#[test]
fn test_encode_short_buffer_errors() {
    let config = CompressionConfig::lossless(CompressionCodec::Jpeg2000);
    let image = ImageData::new(64, 64, 8, 1, vec![0; 100]);
    let j2k = Jpeg2000Codec::lossless();
    assert!(matches!(j2k.encode(&image, &config), Err(MedImgError::ImageData(_))));
    let jls = JpegLsCodec::lossless();
    assert!(matches!(jls.encode(&image, &config), Err(MedImgError::ImageData(_))));
}

#[test]
fn test_transform_decode_too_short() {
    let codec = Jpeg2000Codec::lossless();
    let r = codec.decode(&[0u8, 1, 2], 64, 64, 8, 1);
    assert!(matches!(r, Err(MedImgError::Codec(_))));
}

#[test]
fn test_transform_decode_missing_start_marker() {
    let codec = Jpeg2000Codec::lossless();
    let r = codec.decode(&[0u8, 1, 2, 3, 4, 5], 64, 64, 8, 1);
    assert!(matches!(r, Err(MedImgError::Codec(_))));
}

#[test]
fn test_prediction_decode_missing_start_marker() {
    let codec = JpegLsCodec::lossless();
    let r = codec.decode(&[0u8, 1, 2, 3, 4, 5], 64, 64, 8, 1);
    assert!(matches!(r, Err(MedImgError::Codec(_))));
}

#[test]
fn test_prediction_decode_missing_scan_start() {
    let codec = JpegLsCodec::lossless();
    // a start-of-image marker followed by filler, but no scan-start segment
    let r = codec.decode(&[0xFF, 0xD8, 1, 2, 3, 4], 2, 2, 8, 1);
    assert!(matches!(r, Err(MedImgError::Codec(_))));
}

#[test]
fn test_capability_gating() {
    let image = ImageData::new(8, 8, 17, 1, vec![0; 8 * 8 * 3]);
    let j2k = Jpeg2000Codec::new();
    assert!(!j2k.can_encode(&image));
    let jls = JpegLsCodec::new();
    assert!(!jls.can_encode(&image));

    let ok_image = ImageData::new(8, 8, 16, 1, vec![0; 8 * 8 * 2]);
    assert!(j2k.can_encode(&ok_image));
    assert!(jls.can_encode(&ok_image));
}

#[test]
fn test_transfer_syntax_uids() {
    let j2k = Jpeg2000Codec::new();
    assert_eq!(j2k.transfer_syntax_uid(true), Some("1.2.840.10008.1.2.4.90"));
    assert_eq!(j2k.transfer_syntax_uid(false), Some("1.2.840.10008.1.2.4.91"));
    let jls = JpegLsCodec::new();
    assert_eq!(jls.transfer_syntax_uid(true), Some("1.2.840.10008.1.2.4.80"));
    assert_eq!(jls.transfer_syntax_uid(false), Some("1.2.840.10008.1.2.4.81"));
}

#[test]
fn test_factory_selects_codec() {
    let image = create_test_image(8, 8, 8);
    let config = CompressionConfig::lossless(CompressionCodec::Uncompressed);
    let codec = CodecFactory::for_config(&config);
    let encoded = codec.encode(&image, &config).unwrap();
    assert_eq!(encoded, image.pixel_data);
    let decoded = codec.decode(&encoded, 8, 8, 8, 1).unwrap();
    assert_eq!(decoded.pixel_data, image.pixel_data);

    let j2k = CodecFactory::create(CompressionCodec::Jpeg2000);
    assert!(matches!(j2k, AnyCodec::Jpeg2000(_)));
    let jls = CodecFactory::create(CompressionCodec::JpegLs);
    assert!(matches!(jls, AnyCodec::JpegLs(_)));
}

#[test]
fn test_codec_info_names() {
    assert_eq!(Jpeg2000Codec::new().info().name, "JPEG 2000");
    assert_eq!(JpegLsCodec::new().info().name, "JPEG-LS");
}
