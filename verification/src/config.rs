//! Configuration types for compression settings and modality-specific rules.

use vstd::prelude::*;
use vstd::string::StrSliceExecFns;

pub mod transfer_syntax;

verus! {

/// Supported compression codecs.
#[derive(Debug, Clone, Copy, PartialEq, Eq, Structural)]
pub enum CompressionCodec {
    /// Transform-style container (lossless or lossy).
    Jpeg2000,
    /// Prediction-style container (lossless or near-lossless).
    JpegLs,
    /// No compression (raw passthrough).
    Uncompressed,
}

/// Compression mode.
#[derive(Debug, Clone, Copy, PartialEq, Eq, Structural)]
pub enum CompressionMode {
    /// Lossless compression - exact reconstruction guaranteed.
    Lossless,
    /// Lossy compression with quality parameter.
    Lossy,
    /// Near-lossless with maximum error tolerance.
    NearLossless,
}

/// Medical imaging modality.
#[derive(Debug, Clone, Copy, PartialEq, Eq, Structural)]
pub enum Modality {
    /// Computed Tomography
    CT,
    /// Magnetic Resonance Imaging
    MR,
    /// Computed/Digital Radiography
    CR,
    /// Digital X-Ray
    DX,
    /// Mammography - requires lossless only
    MG,
    /// Ultrasound
    US,
    /// Nuclear Medicine
    NM,
    /// Positron Emission Tomography
    PT,
    /// Whole Slide Imaging (Pathology)
    SM,
    /// Other/Unknown
    Other,
}

/// Whether a character counts as trimmable whitespace.
pub open spec fn spec_is_space(c: char) -> bool {
    c == ' ' || c == '\t' || c == '\n' || c == '\r'
}

/// Drop leading whitespace.
pub open spec fn spec_trim_front(s: Seq<char>) -> Seq<char>
    decreases s.len(),
{
    if s.len() > 0 && spec_is_space(s[0]) {
        spec_trim_front(s.drop_first())
    } else {
        s
    }
}

/// Drop trailing whitespace.
pub open spec fn spec_trim_back(s: Seq<char>) -> Seq<char>
    decreases s.len(),
{
    if s.len() > 0 && spec_is_space(s[s.len() - 1]) {
        spec_trim_back(s.drop_last())
    } else {
        s
    }
}

/// Drop whitespace on both ends.
pub open spec fn spec_trim(s: Seq<char>) -> Seq<char> {
    spec_trim_back(spec_trim_front(s))
}

/// Case-insensitive match of `t` against a code given in upper and lower case.
pub open spec fn spec_code_matches(t: Seq<char>, up: Seq<char>, lo: Seq<char>) -> bool {
    t.len() == up.len() && forall|i: int|
        0 <= i < t.len() ==> t[i] == up[i] || #[trigger] t[i] == lo[i]
}

/// The modality that a DICOM modality string denotes, after trimming and
/// ignoring case.
pub open spec fn spec_modality_from(s: Seq<char>) -> Modality {
    let t = spec_trim(s);
    if spec_code_matches(t, "CT"@, "ct"@) {
        Modality::CT
    } else if spec_code_matches(t, "MR"@, "mr"@) || spec_code_matches(t, "MRI"@, "mri"@) {
        Modality::MR
    } else if spec_code_matches(t, "CR"@, "cr"@) {
        Modality::CR
    } else if spec_code_matches(t, "DX"@, "dx"@) {
        Modality::DX
    } else if spec_code_matches(t, "MG"@, "mg"@) {
        Modality::MG
    } else if spec_code_matches(t, "US"@, "us"@) {
        Modality::US
    } else if spec_code_matches(t, "NM"@, "nm"@) {
        Modality::NM
    } else if spec_code_matches(t, "PT"@, "pt"@) || spec_code_matches(t, "PET"@, "pet"@) {
        Modality::PT
    } else if spec_code_matches(t, "SM"@, "sm"@) {
        Modality::SM
    } else {
        Modality::Other
    }
}

/// Whether a character is trimmable whitespace.
fn is_space_char(c: char) -> (r: bool)
    ensures
        r == spec_is_space(c),
{
    c == ' ' || c == '\t' || c == '\n' || c == '\r'
}

/// Case-insensitive comparison of `s[start..end]` against a code given in
/// upper and lower case (`up` and `lo` must spell the same code).
fn code_matches(s: &str, start: usize, end: usize, up: &str, lo: &str) -> (r: bool)
    requires
        start <= end <= s@.len(),
        up@.len() == lo@.len(),
    ensures
        r == spec_code_matches(s@.subrange(start as int, end as int), up@, lo@),
{
    let n = up.unicode_len();
    if end - start != n {
        return false;
    }
    let ghost t = s@.subrange(start as int, end as int);
    let mut i: usize = 0;
    while i < n
        invariant
            0 <= i <= n,
            n == up@.len() == lo@.len(),
            start <= end <= s@.len(),
            end - start == n,
            t == s@.subrange(start as int, end as int),
            forall|j: int| 0 <= j < i ==> t[j] == up@[j] || #[trigger] t[j] == lo@[j],
        decreases n - i,
    {
        let c = s.get_char(start + i);
        let cu = up.get_char(i);
        let cl = lo.get_char(i);
        assert(c == t[i as int]);
        if c != cu && c != cl {
            return false;
        }
        i = i + 1;
    }
    true
}

impl Modality {
    /// Parse modality from a DICOM modality string, trimming whitespace and
    /// ignoring case; unknown codes map to `Other`.
    pub fn from_dicom_string(s: &str) -> (r: Self)
        ensures
            r == spec_modality_from(s@),
    {
        proof {
            reveal_strlit("CT");
            reveal_strlit("ct");
            reveal_strlit("MR");
            reveal_strlit("mr");
            reveal_strlit("MRI");
            reveal_strlit("mri");
            reveal_strlit("CR");
            reveal_strlit("cr");
            reveal_strlit("DX");
            reveal_strlit("dx");
            reveal_strlit("MG");
            reveal_strlit("mg");
            reveal_strlit("US");
            reveal_strlit("us");
            reveal_strlit("NM");
            reveal_strlit("nm");
            reveal_strlit("PT");
            reveal_strlit("pt");
            reveal_strlit("PET");
            reveal_strlit("pet");
            reveal_strlit("SM");
            reveal_strlit("sm");
        }
        let n = s.unicode_len();
        let mut start: usize = 0;
        proof {
            assert(s@.skip(0) =~= s@);
        }
        while start < n && is_space_char(s.get_char(start))
            invariant
                0 <= start <= n,
                n == s@.len(),
                spec_trim_front(s@) == spec_trim_front(s@.skip(start as int)),
            decreases n - start,
        {
            proof {
                assert(s@.skip(start as int).drop_first() =~= s@.skip(start as int + 1));
            }
            start = start + 1;
        }
        proof {
            assert(spec_trim_front(s@.skip(start as int)) =~= s@.skip(start as int));
        }
        let mut end: usize = n;
        while end > start && is_space_char(s.get_char(end - 1))
            invariant
                start <= end <= n,
                n == s@.len(),
                spec_trim_front(s@) == s@.skip(start as int),
                spec_trim_back(s@.skip(start as int)) == spec_trim_back(
                    s@.subrange(start as int, end as int),
                ),
            decreases end,
        {
            proof {
                assert(s@.subrange(start as int, end as int).drop_last() =~= s@.subrange(
                    start as int,
                    end as int - 1,
                ));
                assert(s@.skip(start as int) =~= s@.subrange(start as int, n as int));
            }
            end = end - 1;
        }
        proof {
            assert(s@.skip(start as int) =~= s@.subrange(start as int, n as int));
            assert(spec_trim_back(s@.subrange(start as int, end as int)) =~= s@.subrange(
                start as int,
                end as int,
            ));
            assert(spec_trim(s@) == s@.subrange(start as int, end as int));
        }
        if code_matches(s, start, end, "CT", "ct") {
            Modality::CT
        } else if code_matches(s, start, end, "MR", "mr") || code_matches(s, start, end, "MRI", "mri") {
            Modality::MR
        } else if code_matches(s, start, end, "CR", "cr") {
            Modality::CR
        } else if code_matches(s, start, end, "DX", "dx") {
            Modality::DX
        } else if code_matches(s, start, end, "MG", "mg") {
            Modality::MG
        } else if code_matches(s, start, end, "US", "us") {
            Modality::US
        } else if code_matches(s, start, end, "NM", "nm") {
            Modality::NM
        } else if code_matches(s, start, end, "PT", "pt") || code_matches(s, start, end, "PET", "pet") {
            Modality::PT
        } else if code_matches(s, start, end, "SM", "sm") {
            Modality::SM
        } else {
            Modality::Other
        }
    }

    /// Check if modality requires lossless compression (regulatory requirement).
    pub fn requires_lossless(&self) -> (r: bool)
        ensures
            r == (self is MG),
    {
        match self {
            Modality::MG => true,
            _ => false,
        }
    }

    /// Get recommended codec for this modality.
    pub fn recommended_codec(&self) -> (r: CompressionCodec)
        ensures
            r == if self is NM {
                CompressionCodec::JpegLs
            } else {
                CompressionCodec::Jpeg2000
            },
    {
        match self {
            Modality::NM => CompressionCodec::JpegLs,
            _ => CompressionCodec::Jpeg2000,
        }
    }
}

/// Quality preset for compression.
#[derive(Debug, Clone, Copy, PartialEq, Eq, Structural)]
pub enum QualityPreset {
    /// Maximum quality - lossless
    Diagnostic,
    /// High quality lossy - suitable for primary review
    HighQuality,
    /// Medium quality - suitable for reference viewing
    Standard,
    /// Lower quality - thumbnails and previews
    Preview,
}

impl QualityPreset {
    /// Get the compression ratio target for lossy compression.
    pub fn target_ratio(&self) -> (r: Option<u32>)
        ensures
            r == match self {
                QualityPreset::Diagnostic => Option::<u32>::None,
                QualityPreset::HighQuality => Option::<u32>::Some(10),
                QualityPreset::Standard => Option::<u32>::Some(20),
                QualityPreset::Preview => Option::<u32>::Some(50),
            },
    {
        match self {
            QualityPreset::Diagnostic => None,
            QualityPreset::HighQuality => Some(10),
            QualityPreset::Standard => Some(20),
            QualityPreset::Preview => Some(50),
        }
    }

    /// Get the number of quality layers for the transform container.
    pub fn quality_layers(&self) -> (r: u32)
        ensures
            r == match self {
                QualityPreset::Diagnostic => 1u32,
                QualityPreset::HighQuality => 5u32,
                QualityPreset::Standard => 3u32,
                QualityPreset::Preview => 2u32,
            },
    {
        match self {
            QualityPreset::Diagnostic => 1,
            QualityPreset::HighQuality => 5,
            QualityPreset::Standard => 3,
            QualityPreset::Preview => 2,
        }
    }
}

/// Configuration for a compression operation.
#[derive(Debug, Clone)]
pub struct CompressionConfig {
    /// Codec to use for compression.
    pub codec: CompressionCodec,
    /// Compression mode (lossless, lossy, near-lossless).
    pub mode: CompressionMode,
    /// Quality preset.
    pub quality: QualityPreset,
    /// Target compression ratio (for lossy mode).
    pub target_ratio: Option<u32>,
    /// Transform container: number of quality layers.
    pub quality_layers: u32,
    /// Transform container: tile size (0 = no tiling).
    pub tile_size: u32,
    /// Prediction container: near-lossless tolerance (0 = lossless).
    pub near_lossless_error: u8,
    /// Preserve original metadata exactly.
    pub preserve_metadata: bool,
    /// Verify compression by round-trip decode.
    pub verify_compression: bool,
    /// Override modality safety checks (use with caution).
    pub override_safety_checks: bool,
}

impl Default for CompressionConfig {
    /// The default configuration: lossless transform-container compression at
    /// diagnostic quality, with round-trip verification on.
    fn default() -> (r: Self)
        ensures
            r.codec == CompressionCodec::Jpeg2000,
            r.mode == CompressionMode::Lossless,
            r.quality == QualityPreset::Diagnostic,
            r.target_ratio is None,
            r.quality_layers == 1,
            r.tile_size == 0,
            r.near_lossless_error == 0,
            r.preserve_metadata,
            r.verify_compression,
            !r.override_safety_checks,
    {
        Self {
            codec: CompressionCodec::Jpeg2000,
            mode: CompressionMode::Lossless,
            quality: QualityPreset::Diagnostic,
            target_ratio: None,
            quality_layers: 1,
            tile_size: 0,
            near_lossless_error: 0,
            preserve_metadata: true,
            verify_compression: true,
            override_safety_checks: false,
        }
    }
}

impl CompressionConfig {
    /// Create a lossless configuration with the given codec.
    pub fn lossless(codec: CompressionCodec) -> (r: Self)
        ensures
            r.codec == codec,
            r.mode == CompressionMode::Lossless,
            r.quality == QualityPreset::Diagnostic,
            r.target_ratio is None,
            r.quality_layers == 1,
            r.near_lossless_error == 0,
            r.verify_compression,
            !r.override_safety_checks,
    {
        Self { codec, mode: CompressionMode::Lossless, quality: QualityPreset::Diagnostic, ..Default::default() }
    }

    /// Create a lossy configuration with a target ratio.
    pub fn lossy(codec: CompressionCodec, ratio: u32) -> (r: Self)
        ensures
            r.codec == codec,
            r.mode == CompressionMode::Lossy,
            r.quality == QualityPreset::Standard,
            r.target_ratio == Some(ratio),
            r.quality_layers == 1,
            r.near_lossless_error == 0,
            r.verify_compression,
            !r.override_safety_checks,
    {
        Self {
            codec,
            mode: CompressionMode::Lossy,
            quality: QualityPreset::Standard,
            target_ratio: Some(ratio),
            ..Default::default()
        }
    }

    /// Validate configuration against modality constraints: a modality that
    /// requires lossless compression rejects any other mode unless safety
    /// checks are overridden.
    pub fn validate_for_modality(&self, modality: Modality) -> (r: Result<(), String>)
        ensures
            r is Ok <==> !(modality is MG && self.mode != CompressionMode::Lossless
                && !self.override_safety_checks),
    {
        if modality.requires_lossless() && !(self.mode == CompressionMode::Lossless) {
            if self.override_safety_checks {
                Ok(())
            } else {
                Err(
                    "Modality requires lossless compression (FDA/ACR requirement). Set override_safety_checks=true to bypass.".to_owned(),
                )
            }
        } else {
            Ok(())
        }
    }
}

} // verus!
