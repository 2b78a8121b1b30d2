//! Transform-style container codec.
//!
//! Emits and parses a marker-framed codestream around a tile payload.  The
//! payload transform is a simplified placeholder for a wavelet stage: a
//! causal delta over the sample sequence in lossless mode (exactly
//! invertible by a prefix sum), and a shift-based magnitude quantization in
//! lossy mode (not invertible; low bits are discarded).

use vstd::prelude::*;
use vstd::string::StringExecFns;

use crate::codec::bytes::{
    lemma_le_bytes_of_samples_of, lemma_le_bytes_push, lemma_mod_diff16, lemma_pow2_adds,
    lemma_pow2_le, lemma_pow2_values, lemma_pow2_wide_values, lemma_samples_of_in_range,
    lemma_samples_of_le_bytes, lemma_wadd_wsub8, log2_floor_u32, pow2_u128, pow2_u16, pow2_u64,
    push_u16_be, push_u16_le, push_u32_be, read_sample16, spec_le_bytes, spec_log2_floor,
    spec_pow2, spec_sample16, spec_samples_of, spec_u16_be, spec_u16_le, spec_u32_be,
    spec_wadd8, spec_wsub8,
};
use crate::codec::traits::{spec_can_encode, CodecCapabilities, CodecInfo};
use crate::config::{transfer_syntax, CompressionConfig, CompressionMode};
use crate::error::MedImgError;
use crate::{spec_bytes_per_sample, spec_expected_size, ImageData};

verus! {

// ---------------------------------------------------------------------------
// Payload transforms, specification level
// ---------------------------------------------------------------------------

/// Causal delta over 8-bit samples: the first sample verbatim, then each
/// sample minus its predecessor, wrapping at 8 bits.
pub open spec fn spec_delta8(d: Seq<u8>) -> Seq<u8> {
    Seq::new(
        d.len(),
        |i: int|
            if i == 0 {
                d[0]
            } else {
                spec_wsub8(d[i], d[i - 1])
            },
    )
}

/// Inverse of the 8-bit delta: the wrapping prefix sum of the first `n`
/// stored bytes.
pub open spec fn spec_undelta8(e: Seq<u8>, n: int) -> Seq<u8>
    decreases n,
{
    if n <= 0 {
        Seq::empty()
    } else {
        let p = spec_undelta8(e, n - 1);
        let v = if n == 1 {
            e[0]
        } else {
            spec_wadd8(p[n - 2], e[n - 1])
        };
        p.push(v)
    }
}



/// Causal delta over a sample sequence, wrapping at 16 bits.
pub open spec fn spec_delta_samples(s: Seq<int>) -> Seq<int> {
    Seq::new(
        s.len(),
        |i: int|
            if i == 0 {
                s[0]
            } else {
                (s[i] - s[i - 1]) % 65536
            },
    )
}

/// Wrapping prefix sum over the first `n` stored samples.
pub open spec fn spec_undelta_samples(es: Seq<int>, n: int) -> Seq<int>
    decreases n,
{
    if n <= 0 {
        Seq::empty()
    } else {
        let p = spec_undelta_samples(es, n - 1);
        let v = if n == 1 {
            es[0]
        } else {
            (p[n - 2] + es[n - 1]) % 65536
        };
        p.push(v)
    }
}

/// Causal delta over 16-bit little-endian samples.
pub open spec fn spec_delta16(d: Seq<u8>) -> Seq<u8> {
    spec_le_bytes(spec_delta_samples(spec_samples_of(d)))
}

/// Inverse of the 16-bit delta, re-serialized little-endian.
pub open spec fn spec_undelta16(e: Seq<u8>, n: int) -> Seq<u8> {
    spec_le_bytes(spec_undelta_samples(spec_samples_of(e), n))
}

/// The lossless tile payload for a given bit depth.
pub open spec fn spec_j2k_lossless_payload(d: Seq<u8>, bits_per_sample: u16) -> Seq<u8> {
    if bits_per_sample <= 8 {
        spec_delta8(d)
    } else {
        spec_delta16(d)
    }
}

/// The number of low bits the lossy quantizer discards: half the base-2
/// logarithm of the target ratio, rounded, clamped to the bit depth.
pub open spec fn spec_quant_bits(target_ratio: u32, bits_per_sample: u16) -> u8 {
    let rounded = (spec_log2_floor(target_ratio as nat) + 1) / 2;
    if rounded < bits_per_sample - 1 {
        rounded as u8
    } else {
        (bits_per_sample - 1) as u8
    }
}

/// A group of eight stored values, zero-padded past the end of the
/// sequence.
pub open spec fn spec_group8(q: Seq<int>) -> Seq<int> {
    Seq::new(
        8,
        |i: int|
            if i < q.len() {
                q[i]
            } else {
                0
            },
    )
}

/// The first `m` entries of a group read as one big-endian base-`2^k`
/// number: the first entry is the most significant.
pub open spec fn spec_group_value(vals: Seq<int>, k: nat, m: int) -> int
    decreases m,
{
    if m <= 0 {
        0
    } else {
        spec_group_value(vals, k, m - 1) * spec_pow2(k) + vals[m - 1]
    }
}

/// A number serialized as `d` big-endian base-256 digits.
pub open spec fn spec_be_bytes(v: int, d: nat) -> Seq<u8>
    decreases d,
{
    if d == 0 {
        Seq::empty()
    } else {
        spec_be_bytes(v / 256, (d - 1) as nat) + seq![(v % 256) as u8]
    }
}

/// A byte sequence read as one big-endian number.
pub open spec fn spec_be_value(s: Seq<u8>) -> int
    decreases s.len(),
{
    if s.len() == 0 {
        0
    } else {
        spec_be_value(s.drop_last()) * 256 + s.last()
    }
}

/// The stored values packed at `k` bits each, eight values to a group of
/// exactly `k` bytes, the final group zero-padded.
pub open spec fn spec_packed_from(q: Seq<int>, k: nat, i: int) -> Seq<u8>
    decreases
            (if i <= q.len() {
                q.len() - i
            } else {
                0
            }),
    when k >= 1 && i >= 0
{
    if i >= q.len() {
        Seq::empty()
    } else {
        spec_be_bytes(spec_group_value(spec_group8(q.skip(i)), k, 8), k) + spec_packed_from(
            q,
            k,
            i + 8,
        )
    }
}

/// The eight `k`-bit fields of a group value, most significant first.
pub open spec fn spec_group_fields(b: int, k: nat) -> Seq<int> {
    Seq::new(8, |t: int| (b / spec_pow2((k * (7 - t)) as nat) as int) % spec_pow2(k) as int)
}

/// The quantized value of each 8-bit sample: the sample right-shifted.
pub open spec fn spec_quantized8(d: Seq<u8>, shift: nat) -> Seq<int> {
    Seq::new(d.len(), |i: int| d[i] as int / spec_pow2(shift) as int)
}

/// The quantized value of each 16-bit sample.
pub open spec fn spec_quantized16(d: Seq<u8>, shift: nat) -> Seq<int> {
    let s = spec_samples_of(d);
    Seq::new(s.len(), |i: int| s[i] / spec_pow2(shift) as int)
}

/// The lossy tile payload over 8-bit samples: the quantizer parameter byte,
/// then each sample right-shifted and packed at the reduced bit width, so
/// that discarding bits genuinely shrinks the stream.
pub open spec fn spec_lossy_payload8(d: Seq<u8>, qb: u8) -> Seq<u8> {
    let shift: nat = if qb <= 7 {
        qb as nat
    } else {
        7
    };
    seq![qb] + spec_packed_from(spec_quantized8(d, shift), (8 - shift) as nat, 0)
}

/// The lossy tile payload over 16-bit samples.
pub open spec fn spec_lossy_payload16(d: Seq<u8>, qb: u8) -> Seq<u8> {
    let shift: nat = if qb <= 15 {
        qb as nat
    } else {
        15
    };
    seq![qb] + spec_packed_from(spec_quantized16(d, shift), (16 - shift) as nat, 0)
}

/// The lossy tile payload for a given bit depth and target ratio.
pub open spec fn spec_j2k_lossy_payload(d: Seq<u8>, bits_per_sample: u16, ratio: u32) -> Seq<u8> {
    let qb = spec_quant_bits(ratio, bits_per_sample);
    if bits_per_sample <= 8 {
        spec_lossy_payload8(d, qb)
    } else {
        spec_lossy_payload16(d, qb)
    }
}

/// Reconstruction of a delta-coded payload.
pub open spec fn spec_j2k_lossless_decode(p: Seq<u8>, bits_per_sample: u16) -> Seq<u8> {
    if bits_per_sample <= 8 {
        spec_undelta8(p, p.len() as int)
    } else {
        spec_undelta16(p, p.len() as int / 2)
    }
}

/// Reconstruction of one packed 8-bit group after another: each group of
/// `k` bytes yields eight field values, left-shifted back into place;
/// discarded low bits stay zero, and a trailing partial group is ignored.
pub open spec fn spec_lossy_decode8_from(bytes: Seq<u8>, k: nat, shift: nat, i: int) -> Seq<u8>
    decreases bytes.len() - i,
    when k >= 1 && i >= 0
{
    if i + k > bytes.len() {
        Seq::empty()
    } else {
        let fields = spec_group_fields(spec_be_value(bytes.subrange(i, i + k)), k);
        Seq::new(8, |t: int| ((fields[t] * spec_pow2(shift)) % 256) as u8)
            + spec_lossy_decode8_from(bytes, k, shift, i + k)
    }
}

/// Reconstruction of one packed 16-bit group after another, re-serialized
/// little-endian.
pub open spec fn spec_lossy_decode16_from(bytes: Seq<u8>, k: nat, shift: nat, i: int) -> Seq<u8>
    decreases bytes.len() - i,
    when k >= 1 && i >= 0
{
    if i + k > bytes.len() {
        Seq::empty()
    } else {
        let fields = spec_group_fields(spec_be_value(bytes.subrange(i, i + k)), k);
        spec_le_bytes(Seq::new(8, |t: int| (fields[t] * spec_pow2(shift)) % 65536))
            + spec_lossy_decode16_from(bytes, k, shift, i + k)
    }
}

/// Reconstruction of a shift-quantized payload: read the parameter byte,
/// then unpack the reduced-width fields and left-shift each back into
/// place; discarded low bits stay zero.
pub open spec fn spec_j2k_lossy_decode(p: Seq<u8>, bits_per_sample: u16) -> Seq<u8> {
    if p.len() == 0 {
        Seq::empty()
    } else {
        let shift15: nat = if p[0] <= 15 {
            p[0] as nat
        } else {
            15
        };
        let rest = p.skip(1);
        if bits_per_sample <= 8 {
            let shift: nat = if shift15 <= 7 {
                shift15
            } else {
                7
            };
            spec_lossy_decode8_from(rest, (8 - shift) as nat, shift, 0)
        } else {
            spec_lossy_decode16_from(rest, (16 - shift15) as nat, shift15, 0)
        }
    }
}

/// What the payload decoder makes of a tile payload: a stored parameter
/// byte below 16 selects dequantization, anything else is read as a first
/// delta byte and selects delta reconstruction.  The dispatch is a
/// heuristic: a genuine first delta byte below 16 is indistinguishable from
/// a quantizer parameter, so the lossless round-trip guarantee holds only
/// for buffers whose first stored byte is 16 or more.
pub open spec fn spec_j2k_payload_decode(p: Seq<u8>, bits_per_sample: u16) -> Seq<u8> {
    if p.len() > 0 && p[0] < 16 {
        spec_j2k_lossy_decode(p, bits_per_sample)
    } else {
        spec_j2k_lossless_decode(p, bits_per_sample)
    }
}

// ---------------------------------------------------------------------------
// Round-trip lemmas for the delta transform
// ---------------------------------------------------------------------------

/// The 8-bit prefix sum undoes the 8-bit delta, prefix by prefix.
pub proof fn lemma_undelta8_of_delta8(d: Seq<u8>, n: int)
    requires
        0 <= n <= d.len(),
    ensures
        spec_undelta8(spec_delta8(d), n) == d.subrange(0, n),
    decreases n,
{
    if n > 0 {
        lemma_undelta8_of_delta8(d, n - 1);
        let e = spec_delta8(d);
        let p = spec_undelta8(e, n - 1);
        if n > 1 {
            assert(p[n - 2] == d[n - 2]);
            lemma_wadd_wsub8(d[n - 2], d[n - 1]);
        }
        assert(spec_undelta8(e, n) =~= d.subrange(0, n));
    } else {
        assert(spec_undelta8(spec_delta8(d), n) =~= d.subrange(0, n));
    }
}





/// The wrapping prefix sum undoes the sample-level delta, prefix by prefix.
pub proof fn lemma_undelta_samples_of_delta(s: Seq<int>, n: int)
    requires
        0 <= n <= s.len(),
        forall|i: int| 0 <= i < s.len() ==> 0 <= #[trigger] s[i] < 65536,
    ensures
        spec_undelta_samples(spec_delta_samples(s), n) == s.subrange(0, n),
    decreases n,
{
    let es = spec_delta_samples(s);
    if n > 0 {
        lemma_undelta_samples_of_delta(s, n - 1);
        let p = spec_undelta_samples(es, n - 1);
        if n > 1 {
            assert(p[n - 2] == s[n - 2]);
            assert(es[n - 1] == (s[n - 1] - s[n - 2]) % 65536);
            lemma_mod_diff16(s[n - 2], s[n - 1]);
        }
        assert(spec_undelta_samples(es, n) =~= s.subrange(0, n));
    } else {
        assert(spec_undelta_samples(es, n) =~= s.subrange(0, n));
    }
}


/// The wrapping prefix sum yields `n` samples, all 16-bit values.
pub proof fn lemma_undelta_samples_shape(es: Seq<int>, n: int)
    requires
        n <= es.len(),
        forall|i: int| 0 <= i < es.len() ==> 0 <= #[trigger] es[i] < 65536,
    ensures
        spec_undelta_samples(es, n).len() == if n <= 0 {
            0
        } else {
            n
        },
        forall|i: int|
            0 <= i < spec_undelta_samples(es, n).len() ==> 0 <= #[trigger] spec_undelta_samples(
                es,
                n,
            )[i] < 65536,
    decreases n,
{
    if n > 0 {
        lemma_undelta_samples_shape(es, n - 1);
    }
}

/// The 16-bit prefix sum undoes the 16-bit delta.
pub proof fn lemma_undelta16_of_delta16(d: Seq<u8>, n: int)
    requires
        0 <= n <= d.len() / 2,
    ensures
        spec_undelta16(spec_delta16(d), n) == d.subrange(0, 2 * n),
{
    let s = spec_samples_of(d);
    lemma_samples_of_in_range(d);
    let es = spec_delta_samples(s);
    assert(forall|i: int| 0 <= i < es.len() ==> 0 <= #[trigger] es[i] < 65536);
    lemma_samples_of_le_bytes(es);
    lemma_undelta_samples_of_delta(s, n);
    lemma_le_bytes_of_samples_of(d, n);
}

/// Shape of a big-endian serialization: `d` digits, the one at position
/// `t` being the base-256 digit of weight `d - 1 - t`.
pub proof fn lemma_be_bytes_shape(v: int, d: nat)
    requires
        v >= 0,
    ensures
        spec_be_bytes(v, d).len() == d,
        forall|t: int|
            0 <= t < d ==> spec_be_bytes(v, d)[t] == (((v / spec_pow2(
                (8 * (d - 1 - t)) as nat,
            ) as int) % 256) as u8),
    decreases d,
{
    if d > 0 {
        lemma_be_bytes_shape(v / 256, (d - 1) as nat);
        assert forall|t: int|
            0 <= t < d implies spec_be_bytes(v, d)[t] == (((v / spec_pow2(
            (8 * (d - 1 - t)) as nat,
        ) as int) % 256) as u8) by {
            if t < d - 1 {
                let m = spec_pow2((8 * (d - 2 - t)) as nat) as int;
                lemma_pow2_values();
                lemma_pow2_le(0, (8 * (d - 2 - t)) as nat);
                assert(m >= 1);
                lemma_pow2_adds(8, (8 * (d - 2 - t)) as nat);
                assert(8 + (8 * (d - 2 - t)) as nat == (8 * (d - 1 - t)) as nat);
                assert(spec_pow2((8 * (d - 1 - t)) as nat) == 256 * m);
                vstd::arithmetic::div_mod::lemma_div_denominator(v, 256, m);
                assert((v / 256) / m == v / (256 * m));
                assert(spec_be_bytes(v, d)[t] == spec_be_bytes(v / 256, (d - 1) as nat)[t]);
                assert(spec_be_bytes(v / 256, (d - 1) as nat)[t] == ((((v / 256) / spec_pow2(
                    (8 * (d - 2 - t)) as nat,
                ) as int) % 256) as u8));
            } else {
                assert(t == d - 1);
                assert((8 * (d - 1 - t)) as nat == 0);
                assert(spec_pow2(0) == 1);
                assert(v / 1 == v);
                assert(spec_be_bytes(v, d)[t] == ((v % 256) as u8));
            }
        }
    }
}

/// A group of eight values at `k` bits each packs to exactly `k` bytes, so
/// the packed scan holds `k` bytes per (padded) group of eight samples.
pub proof fn lemma_packed_from_len(q: Seq<int>, k: nat, i: int)
    requires
        k >= 1,
        0 <= i <= q.len(),
        forall|j: int| 0 <= j < q.len() ==> #[trigger] q[j] >= 0,
    ensures
        spec_packed_from(q, k, i).len() == k * ((q.len() - i + 7) / 8),
    decreases q.len() - i,
{
    if i < q.len() {
        let gv = spec_group_value(spec_group8(q.skip(i)), k, 8);
        lemma_group_value_bounds(spec_group8(q.skip(i)), k, 8);
        lemma_be_bytes_shape(gv, k);
        let x = q.len() - i;
        if i + 8 <= q.len() {
            lemma_packed_from_len(q, k, i + 8);
            assert((x + 7) / 8 == 1 + (x - 1) / 8);
            assert(k * ((x - 8 + 7) / 8) + k == k * ((x + 7) / 8)) by (nonlinear_arith)
                requires
                    (x - 8 + 7) / 8 + 1 == (x + 7) / 8,
            ;
        } else {
            assert(spec_packed_from(q, k, i + 8) =~= Seq::<u8>::empty());
            assert(1 <= x <= 7 ==> (x + 7) / 8 == 1);
            assert(x == 8 ==> (x + 7) / 8 == 1);
            assert(k * 1 == k) by (nonlinear_arith);
        }
    } else {
        assert((q.len() - i + 7) / 8 == 0);
        assert(k * 0 == 0) by (nonlinear_arith);
    }
}

/// A group of nonnegative values has a nonnegative group value.
pub proof fn lemma_group_value_bounds(vals: Seq<int>, k: nat, m: int)
    requires
        0 <= m <= vals.len(),
        forall|j: int| 0 <= j < vals.len() ==> #[trigger] vals[j] >= 0,
    ensures
        spec_group_value(vals, k, m) >= 0,
    decreases m,
{
    if m > 0 {
        lemma_group_value_bounds(vals, k, m - 1);
        assert(spec_group_value(vals, k, m - 1) * spec_pow2(k) >= 0) by (nonlinear_arith)
            requires
                spec_group_value(vals, k, m - 1) >= 0,
                spec_pow2(k) >= 0,
        ;
    }
}

/// When every value fits in `k` bits, so does their packed group value in
/// `8 k` bits.
pub proof fn lemma_group_value_fits(vals: Seq<int>, k: nat, m: int)
    requires
        0 <= m <= vals.len(),
        forall|j: int| 0 <= j < vals.len() ==> 0 <= #[trigger] vals[j] < spec_pow2(k),
    ensures
        0 <= spec_group_value(vals, k, m) < spec_pow2(k * m as nat),
    decreases m,
{
    if m > 0 {
        lemma_group_value_fits(vals, k, m - 1);
        let p = spec_group_value(vals, k, m - 1);
        lemma_pow2_adds(k * (m - 1) as nat, k);
        lemma_pow2_le(0, k);
        assert(spec_pow2(k) >= 1);
        assert(p * spec_pow2(k) + vals[m - 1] < spec_pow2(k * (m - 1) as nat) * spec_pow2(k))
            by (nonlinear_arith)
            requires
                0 <= p < spec_pow2(k * (m - 1) as nat),
                0 <= vals[m - 1] < spec_pow2(k),
                spec_pow2(k) >= 1,
        ;
        assert(k * (m - 1) as nat + k == k * m as nat) by (nonlinear_arith)
            requires
                m >= 1,
        ;
        assert(spec_group_value(vals, k, m) >= 0) by {
            assert(p * spec_pow2(k) >= 0) by (nonlinear_arith)
                requires
                    p >= 0,
                    spec_pow2(k) >= 0,
            ;
        }
    } else {
        assert(spec_pow2(k * 0) >= 1) by {
            assert(k * 0 == 0) by (nonlinear_arith);
        }
    }
}

// ---------------------------------------------------------------------------
// Marker framing, specification level
// ---------------------------------------------------------------------------

/// The per-component bit-depth byte: bit depth minus one, with the top bit
/// set for signed samples.
pub open spec fn spec_ssiz(bits_per_sample: u16, is_signed: bool) -> u8 {
    if is_signed {
        (bits_per_sample - 1 + 128) as u8
    } else {
        (bits_per_sample - 1) as u8
    }
}

/// The per-component triples of the size segment: depth byte and fixed 1:1
/// sampling factors, once per component.
pub open spec fn spec_siz_components(ssiz: u8, count: int) -> Seq<u8>
    decreases count,
{
    if count <= 0 {
        Seq::empty()
    } else {
        spec_siz_components(ssiz, count - 1) + seq![ssiz, 1u8, 1u8]
    }
}

/// The size segment: profile, image and tile geometry (single tile equal to
/// the image), component count and per-component parameters.
pub open spec fn spec_siz_segment(
    width: u32,
    height: u32,
    bits_per_sample: u16,
    samples_per_pixel: u16,
    is_signed: bool,
) -> Seq<u8> {
    seq![0xFFu8, 0x51u8] + spec_u16_be(((38 + 3 * (samples_per_pixel as int)) % 0x10000) as u16)
        + seq![0u8, 0u8] + spec_u32_be(width) + spec_u32_be(height) + seq![
        0u8,
        0u8,
        0u8,
        0u8,
        0u8,
        0u8,
        0u8,
        0u8,
    ] + spec_u32_be(width) + spec_u32_be(height) + seq![0u8, 0u8, 0u8, 0u8, 0u8, 0u8, 0u8, 0u8]
        + spec_u16_be(samples_per_pixel) + spec_siz_components(
        spec_ssiz(bits_per_sample, is_signed),
        samples_per_pixel as int,
    )
}

/// The coding-style segment: fixed progression order, the configured
/// quality-layer count, fixed decomposition levels and code-block size, and
/// the transform selector (reversible in lossless mode).
pub open spec fn spec_cod_segment(quality_layers: u32, lossless_mode: bool) -> Seq<u8> {
    seq![0xFFu8, 0x52u8, 0u8, 0x0Cu8, 0u8, 0u8] + spec_u16_be(
        ((quality_layers as int) % 0x10000) as u16,
    ) + seq![
        0u8,
        0x05u8,
        0x04u8,
        0x04u8,
        0u8,
        if lossless_mode {
            1u8
        } else {
            0u8
        },
    ]
}

/// The quantization segment, which differs by mode.
pub open spec fn spec_qcd_segment(lossless_mode: bool) -> Seq<u8> {
    if lossless_mode {
        seq![0xFFu8, 0x5Cu8, 0u8, 0x04u8, 0x22u8, 0u8]
    } else {
        seq![0xFFu8, 0x5Cu8, 0u8, 0x05u8, 0x42u8, 0u8, 0x88u8]
    }
}

/// The tile-part header and data-start marker; the tile length counts ten
/// header bytes plus the tile payload length.
pub open spec fn spec_sot_header(payload_len: int) -> Seq<u8> {
    seq![0xFFu8, 0x90u8] + spec_u16_be(((10 + payload_len) % 0x10000) as u16) + seq![0u8, 0u8]
        + spec_u32_be(((10 + payload_len) % 0x1_0000_0000) as u32) + seq![
        0u8,
        1u8,
        0xFFu8,
        0x93u8,
    ]
}

/// Everything before the tile payload.
pub open spec fn spec_j2k_header(img: ImageData, cfg: CompressionConfig) -> Seq<u8> {
    seq![0xFFu8, 0x4Fu8] + spec_siz_segment(
        img.width,
        img.height,
        img.bits_per_sample,
        img.samples_per_pixel,
        img.is_signed,
    ) + spec_cod_segment(cfg.quality_layers, cfg.mode == CompressionMode::Lossless)
        + spec_qcd_segment(cfg.mode == CompressionMode::Lossless) + spec_sot_header(
        spec_j2k_payload(img, cfg).len() as int,
    )
}

/// The lossy target ratio in effect: the configured one, or ten.
pub open spec fn spec_ratio_of(cfg: CompressionConfig) -> u32 {
    match cfg.target_ratio {
        Some(r) => r,
        None => 10,
    }
}

/// The tile payload for an image under a configuration.
pub open spec fn spec_j2k_payload(img: ImageData, cfg: CompressionConfig) -> Seq<u8> {
    if cfg.mode == CompressionMode::Lossless {
        spec_j2k_lossless_payload(img.pixel_data@, img.bits_per_sample)
    } else {
        spec_j2k_lossy_payload(img.pixel_data@, img.bits_per_sample, spec_ratio_of(cfg))
    }
}

/// The complete codestream: header, payload, end marker.
pub open spec fn spec_j2k_codestream(img: ImageData, cfg: CompressionConfig) -> Seq<u8> {
    spec_j2k_header(img, cfg) + spec_j2k_payload(img, cfg) + seq![0xFFu8, 0xD9u8]
}

/// Where the payload begins according to the decoder's linear scan: two past
/// the first data-start marker found from offset two on, or one before the
/// end if there is none.
pub open spec fn spec_find_sod_from(d: Seq<u8>, pos: int) -> int
    decreases d.len() - pos,
{
    if pos >= d.len() - 1 {
        pos
    } else if d[pos] == 0xFF && d[pos + 1] == 0x93 {
        pos + 2
    } else {
        spec_find_sod_from(d, pos + 1)
    }
}

/// The payload start for a whole codestream.
pub open spec fn spec_find_sod(d: Seq<u8>) -> int {
    spec_find_sod_from(d, 2)
}

/// Where the payload ends: before a trailing end marker if present, else at
/// the end of the buffer.
pub open spec fn spec_j2k_end(d: Seq<u8>) -> int {
    if d.len() >= 2 && d[d.len() - 2] == 0xFF && d[d.len() - 1] == 0xD9 {
        d.len() - 2
    } else {
        d.len() as int
    }
}

/// What decoding a whole buffer yields, when it yields anything: the
/// payload between the data-start marker and the end marker, reconstructed.
pub open spec fn spec_j2k_decoded(d: Seq<u8>, bits_per_sample: u16) -> Seq<u8> {
    spec_j2k_payload_decode(d.subrange(spec_find_sod(d), spec_j2k_end(d)), bits_per_sample)
}

/// Whether a buffer passes the decoder's marker validation: long enough,
/// starts with the codestream start marker, and the payload region is
/// nonempty.
pub open spec fn spec_j2k_parses(d: Seq<u8>) -> bool {
    &&& d.len() >= 4
    &&& d[0] == 0xFF
    &&& d[1] == 0x4F
    &&& spec_find_sod(d) < spec_j2k_end(d)
}

// ---------------------------------------------------------------------------
// The codec
// ---------------------------------------------------------------------------

/// Transform-style container codec.
pub struct Jpeg2000Codec {
    /// Whether to use the reversible or the irreversible transform selector.
    pub use_reversible: bool,
}

impl Jpeg2000Codec {
    /// Create a new codec instance.
    pub fn new() -> (r: Self)
        ensures
            r.use_reversible,
    {
        Self { use_reversible: true }
    }

    /// Create a codec configured for lossless compression.
    pub fn lossless() -> (r: Self)
        ensures
            r.use_reversible,
    {
        Self { use_reversible: true }
    }

    /// Create a codec configured for lossy compression.
    pub fn lossy() -> (r: Self)
        ensures
            !r.use_reversible,
    {
        Self { use_reversible: false }
    }

    /// Delta-code the sample sequence; exactly invertible.
    #[verifier::loop_isolation(false)]
    pub fn lossless_encode(&self, data: &[u8], bits_per_sample: u16) -> (r: Result<
        Vec<u8>,
        MedImgError,
    >)
        ensures
            r matches Ok(v) && v@ == spec_j2k_lossless_payload(data@, bits_per_sample),
    {
        let mut output: Vec<u8> = Vec::new();
        if bits_per_sample <= 8 {
            if data.len() > 0 {
                output.push(data[0]);
                proof {
                    assert(output@ =~= spec_delta8(data@).subrange(0, 1));
                }
                let mut i: usize = 1;
                while i < data.len()
                    invariant
                        1 <= i <= data@.len(),
                        output@ == spec_delta8(data@).subrange(0, i as int),
                    decreases data@.len() - i,
                {
                    let delta = data[i].wrapping_sub(data[i - 1]);
                    proof {
                        assert(delta == spec_wsub8(data@[i as int], data@[i as int - 1]));
                    }
                    output.push(delta);
                    proof {
                        assert(output@ =~= spec_delta8(data@).subrange(0, i as int + 1));
                    }
                    i = i + 1;
                }
                proof {
                    assert(spec_delta8(data@).subrange(0, data@.len() as int) =~= spec_delta8(
                        data@,
                    ));
                }
            } else {
                proof {
                    assert(output@ =~= spec_delta8(data@));
                }
            }
            Ok(output)
        } else {
            let samples = data.len() / 2;
            let ghost sam = spec_samples_of(data@);
            let ghost ds = spec_delta_samples(sam);
            proof {
                lemma_samples_of_in_range(data@);
            }
            if samples > 0 {
                output.push(data[0]);
                output.push(data[1]);
                proof {
                    assert(ds[0] == sam[0]);
                    assert(sam[0] == data@[0] + 256 * data@[1]);
                    assert((data@[0] + 256 * data@[1]) % 256 == data@[0]);
                    assert((data@[0] + 256 * data@[1]) / 256 == data@[1]);
                    assert(output@ =~= spec_le_bytes(ds.subrange(0, 1)));
                }
                let mut i: usize = 1;
                while i < samples
                    invariant
                        1 <= i <= samples,
                        samples == data@.len() / 2,
                        sam == spec_samples_of(data@),
                        ds == spec_delta_samples(sam),
                        forall|k: int| 0 <= k < sam.len() ==> 0 <= #[trigger] sam[k] < 65536,
                        output@ == spec_le_bytes(ds.subrange(0, i as int)),
                    decreases samples - i,
                {
                    let curr = read_sample16(data, i);
                    let prev = read_sample16(data, i - 1);
                    let delta = curr.wrapping_sub(prev);
                    proof {
                        assert(curr == sam[i as int]);
                        assert(prev == sam[i as int - 1]);
                        assert(delta == (sam[i as int] - sam[i as int - 1]) % 65536);
                        assert(ds[i as int] == delta as int);
                    }
                    push_u16_le(&mut output, delta);
                    proof {
                        assert(ds.subrange(0, i as int + 1) =~= ds.subrange(0, i as int).push(
                            ds[i as int],
                        ));
                        lemma_le_bytes_push(ds.subrange(0, i as int), ds[i as int]);
                        assert(spec_u16_le(delta) =~= seq![
                            (ds[i as int] % 256) as u8,
                            (ds[i as int] / 256) as u8,
                        ]);
                        assert(output@ == spec_le_bytes(ds.subrange(0, i as int + 1)));
                    }
                    i = i + 1;
                }
                proof {
                    assert(ds.subrange(0, samples as int) =~= ds);
                }
            } else {
                proof {
                    assert(output@ =~= spec_le_bytes(ds));
                }
            }
            Ok(output)
        }
    }

    /// Reconstruct a delta-coded payload by a wrapping prefix sum.
    #[verifier::loop_isolation(false)]
    pub fn lossless_decode(&self, data: &[u8], bits_per_sample: u16) -> (r: Result<
        Vec<u8>,
        MedImgError,
    >)
        ensures
            r matches Ok(v) && v@ == spec_j2k_lossless_decode(data@, bits_per_sample),
    {
        let mut output: Vec<u8> = Vec::new();
        if bits_per_sample <= 8 {
            if data.len() > 0 {
                output.push(data[0]);
                proof {
                    assert(spec_undelta8(data@, 0) == Seq::<u8>::empty());
                    assert(output@ =~= spec_undelta8(data@, 1));
                }
                let mut i: usize = 1;
                while i < data.len()
                    invariant
                        1 <= i <= data@.len(),
                        output@ == spec_undelta8(data@, i as int),
                        output@.len() == i,
                    decreases data@.len() - i,
                {
                    let value = output[i - 1].wrapping_add(data[i]);
                    output.push(value);
                    proof {
                        assert(output@ =~= spec_undelta8(data@, i as int + 1));
                    }
                    i = i + 1;
                }
            }
            Ok(output)
        } else {
            let ghost es = spec_samples_of(data@);
            proof {
                lemma_samples_of_in_range(data@);
            }
            if data.len() >= 2 {
                output.push(data[0]);
                output.push(data[1]);
                proof {
                    assert(es[0] == data@[0] + 256 * data@[1]);
                    assert((data@[0] + 256 * data@[1]) % 256 == data@[0]);
                    assert((data@[0] + 256 * data@[1]) / 256 == data@[1]);
                    assert(spec_undelta_samples(es, 0) == Seq::<int>::empty());
                    assert(spec_undelta_samples(es, 1) =~= seq![es[0]]);
                    assert(output@ =~= spec_le_bytes(spec_undelta_samples(es, 1)));
                }
                let samples = data.len() / 2;
                let mut i: usize = 1;
                while i < samples
                    invariant
                        1 <= i <= samples,
                        samples == data@.len() / 2,
                        es == spec_samples_of(data@),
                        forall|k: int| 0 <= k < es.len() ==> 0 <= #[trigger] es[k] < 65536,
                        output@ == spec_le_bytes(spec_undelta_samples(es, i as int)),
                        output@.len() == 2 * i,
                    decreases samples - i,
                {
                    let ghost us = spec_undelta_samples(es, i as int);
                    proof {
                        lemma_undelta_samples_shape(es, i as int);
                        lemma_samples_of_le_bytes(us);
                    }
                    let delta = read_sample16(data, i);
                    let prev = read_sample16(output.as_slice(), i - 1);
                    proof {
                        assert(prev == spec_samples_of(output@)[i as int - 1]);
                        assert(prev == us[i as int - 1]);
                        assert(delta == es[i as int]);
                    }
                    let value = prev.wrapping_add(delta);
                    proof {
                        assert(value == (us[i as int - 1] + es[i as int]) % 65536);
                        assert(spec_undelta_samples(es, i as int + 1) == us.push(value as int));
                    }
                    push_u16_le(&mut output, value);
                    proof {
                        lemma_le_bytes_push(us, value as int);
                        assert(spec_u16_le(value) =~= seq![
                            ((value as int) % 256) as u8,
                            ((value as int) / 256) as u8,
                        ]);
                        assert(output@ == spec_le_bytes(spec_undelta_samples(es, i as int + 1)));
                    }
                    i = i + 1;
                }
            } else {
                proof {
                    assert(output@ =~= spec_le_bytes(spec_undelta_samples(es, data@.len() as int / 2)));
                }
            }
            Ok(output)
        }
    }

    /// Append the `k` big-endian bytes of a packed group value.
    #[verifier::loop_isolation(false)]
    fn push_group_bytes64(out: &mut Vec<u8>, b: u64, k: u32)
        requires
            1 <= k <= 8,
        ensures
            final(out)@ == old(out)@ + spec_be_bytes(b as int, k as nat),
    {
        let ghost gb = spec_be_bytes(b as int, k as nat);
        proof {
            lemma_be_bytes_shape(b as int, k as nat);
            assert(out@ =~= old(out)@ + gb.subrange(0, 0));
        }
        let mut t: u32 = 0;
        while t < k
            invariant
                0 <= t <= k,
                out@ == old(out)@ + gb.subrange(0, t as int),
            decreases k - t,
        {
            let p = pow2_u64(8 * (k - 1 - t));
            out.push(((b / p) % 256) as u8);
            proof {
                assert(out@ =~= old(out)@ + gb.subrange(0, t as int + 1));
            }
            t = t + 1;
        }
        proof {
            assert(gb.subrange(0, k as int) =~= gb);
        }
    }

    /// Append the `k` big-endian bytes of a packed 16-bit group value.
    #[verifier::loop_isolation(false)]
    fn push_group_bytes128(out: &mut Vec<u8>, b: u128, k: u32)
        requires
            1 <= k <= 16,
        ensures
            final(out)@ == old(out)@ + spec_be_bytes(b as int, k as nat),
    {
        let ghost gb = spec_be_bytes(b as int, k as nat);
        proof {
            lemma_be_bytes_shape(b as int, k as nat);
            assert(out@ =~= old(out)@ + gb.subrange(0, 0));
        }
        let mut t: u32 = 0;
        while t < k
            invariant
                0 <= t <= k,
                out@ == old(out)@ + gb.subrange(0, t as int),
            decreases k - t,
        {
            let p = pow2_u128(8 * (k - 1 - t));
            out.push(((b / p) % 256) as u8);
            proof {
                assert(out@ =~= old(out)@ + gb.subrange(0, t as int + 1));
            }
            t = t + 1;
        }
        proof {
            assert(gb.subrange(0, k as int) =~= gb);
        }
    }

    /// Read `k` bytes from `start` as one big-endian value.
    #[verifier::loop_isolation(false)]
    fn read_be_value64(data: &[u8], start: usize, k: u32) -> (r: u64)
        requires
            1 <= k <= 8,
            start as int + k as int <= data@.len(),
        ensures
            r == spec_be_value(data@.subrange(start as int, start as int + k as int)),
            r < spec_pow2((8 * k) as nat),
    {
        let n = data.len();
        proof {
            assert(n == data@.len());
        }
        let mut b: u64 = 0;
        let mut t: u32 = 0;
        proof {
            assert(data@.subrange(start as int, start as int) =~= Seq::<u8>::empty());
        }
        while t < k
            invariant
                0 <= t <= k,
                b == spec_be_value(data@.subrange(start as int, start as int + t as int)),
                b < spec_pow2((8 * t) as nat),
            decreases k - t,
        {
            proof {
                lemma_pow2_values();
                lemma_pow2_wide_values();
                lemma_pow2_le((8 * t) as nat, 56);
                lemma_pow2_adds((8 * t) as nat, 8);
            }
            let byte = data[start + t as usize];
            let ghost prev = b;
            b = b * 256 + byte as u64;
            proof {
                assert(data@.subrange(start as int, start as int + t as int + 1).drop_last()
                    =~= data@.subrange(start as int, start as int + t as int));
                assert(b < spec_pow2((8 * (t + 1)) as nat)) by (nonlinear_arith)
                    requires
                        b == prev * 256 + byte,
                        prev < spec_pow2((8 * t) as nat),
                        byte < 256,
                        spec_pow2((8 * (t + 1)) as nat) == spec_pow2((8 * t) as nat) * 256,
                ;
            }
            t = t + 1;
        }
        b
    }

    /// Read `k` bytes from `start` as one big-endian 16-bit-group value.
    #[verifier::loop_isolation(false)]
    fn read_be_value128(data: &[u8], start: usize, k: u32) -> (r: u128)
        requires
            1 <= k <= 16,
            start as int + k as int <= data@.len(),
        ensures
            r == spec_be_value(data@.subrange(start as int, start as int + k as int)),
            r < spec_pow2((8 * k) as nat),
    {
        let n = data.len();
        proof {
            assert(n == data@.len());
        }
        let mut b: u128 = 0;
        let mut t: u32 = 0;
        proof {
            assert(data@.subrange(start as int, start as int) =~= Seq::<u8>::empty());
        }
        while t < k
            invariant
                0 <= t <= k,
                b == spec_be_value(data@.subrange(start as int, start as int + t as int)),
                b < spec_pow2((8 * t) as nat),
            decreases k - t,
        {
            proof {
                lemma_pow2_values();
                lemma_pow2_wide_values();
                lemma_pow2_le((8 * t) as nat, 120);
                lemma_pow2_adds((8 * t) as nat, 8);
            }
            let byte = data[start + t as usize];
            let ghost prev = b;
            b = b * 256 + byte as u128;
            proof {
                assert(data@.subrange(start as int, start as int + t as int + 1).drop_last()
                    =~= data@.subrange(start as int, start as int + t as int));
                assert(b < spec_pow2((8 * (t + 1)) as nat)) by (nonlinear_arith)
                    requires
                        b == prev * 256 + byte,
                        prev < spec_pow2((8 * t) as nat),
                        byte < 256,
                        spec_pow2((8 * (t + 1)) as nat) == spec_pow2((8 * t) as nat) * 256,
                ;
            }
            t = t + 1;
        }
        b
    }

    /// Quantize the sample sequence by a right shift derived from the target
    /// ratio, and pack the reduced-width values eight to a group, so the
    /// discarded bits genuinely shrink the stream; they cannot be recovered.
    #[verifier::rlimit(100)]
    #[verifier::spinoff_prover]
    #[verifier::loop_isolation(false)]
    pub fn lossy_encode(&self, data: &[u8], bits_per_sample: u16, target_ratio: u32) -> (r: Result<
        Vec<u8>,
        MedImgError,
    >)
        requires
            1 <= bits_per_sample <= 16,
        ensures
            r matches Ok(v) && v@ == spec_j2k_lossy_payload(data@, bits_per_sample, target_ratio),
    {
        let l2 = log2_floor_u32(target_ratio);
        let rounded = (l2 + 1) / 2;
        let cap = (bits_per_sample - 1) as u32;
        let quant_bits: u8 = if rounded < cap {
            rounded as u8
        } else {
            cap as u8
        };
        proof {
            assert(quant_bits == spec_quant_bits(target_ratio, bits_per_sample));
        }
        let mut output: Vec<u8> = Vec::new();
        output.push(quant_bits);
        if bits_per_sample <= 8 {
            let shift: u32 = if quant_bits <= 7 {
                quant_bits as u32
            } else {
                7
            };
            let k: u32 = 8 - shift;
            let divisor = pow2_u64(shift);
            let pow_k = pow2_u64(k);
            let ghost qs = spec_quantized8(data@, shift as nat);
            proof {
                lemma_pow2_values();
                lemma_pow2_adds(shift as nat, k as nat);
                assert(output@ + spec_packed_from(qs, k as nat, 0) =~= seq![quant_bits]
                    + spec_packed_from(qs, k as nat, 0));
            }
            let n = data.len();
            let mut i: usize = 0;
            while i < n
                invariant
                    0 <= i <= n,
                    output@ + spec_packed_from(qs, k as nat, i as int) == seq![quant_bits]
                        + spec_packed_from(qs, k as nat, 0),
                decreases n - i,
            {
                let ghost g = spec_group8(qs.skip(i as int));
                proof {
                    assert forall|j: int| 0 <= j < 8 implies 0 <= #[trigger] g[j] < spec_pow2(
                        k as nat,
                    ) by {
                        if i + j < n {
                            vstd::arithmetic::div_mod::lemma_multiply_divide_lt(
                                data@[i + j] as int,
                                spec_pow2(shift as nat) as int,
                                spec_pow2(k as nat) as int,
                            );
                        }
                    }
                }
                let mut b: u64 = 0;
                let mut j: u32 = 0;
                while j < 8
                    invariant
                        0 <= j <= 8,
                        b == spec_group_value(g, k as nat, j as int),
                        b < spec_pow2((k * j) as nat),
                    decreases 8 - j,
                {
                    let v: u64 = if (j as usize) < n - i {
                        (data[i + j as usize] as u64) / divisor
                    } else {
                        0
                    };
                    proof {
                        assert(v == g[j as int]);
                        assert((k * j) as nat + k as nat == (k * (j + 1)) as nat)
                            by (nonlinear_arith);
                        lemma_pow2_adds((k * j) as nat, k as nat);
                        assert((k * (j + 1)) <= 64) by (nonlinear_arith)
                            requires
                                k <= 8,
                                j + 1 <= 8,
                        ;
                        lemma_pow2_le((k * (j + 1)) as nat, 64);
                        lemma_pow2_wide_values();
                        assert(b * pow_k + v < spec_pow2((k * (j + 1)) as nat))
                            by (nonlinear_arith)
                            requires
                                b < spec_pow2((k * j) as nat),
                                0 <= v < spec_pow2(k as nat),
                                pow_k == spec_pow2(k as nat),
                                pow_k >= 1,
                                spec_pow2((k * (j + 1)) as nat) == spec_pow2((k * j) as nat)
                                    * spec_pow2(k as nat),
                        ;
                    }
                    b = b * pow_k + v;
                    j = j + 1;
                }
                Self::push_group_bytes64(&mut output, b, k);
                proof {
                    assert(spec_packed_from(qs, k as nat, i as int) == spec_be_bytes(
                        b as int,
                        k as nat,
                    ) + spec_packed_from(qs, k as nat, i as int + 8));
                    assert(output@ + spec_packed_from(qs, k as nat, i as int + 8) =~= seq![
                        quant_bits,
                    ] + spec_packed_from(qs, k as nat, 0));
                }
                if n - i <= 8 {
                    proof {
                        assert(spec_packed_from(qs, k as nat, n as int) =~= spec_packed_from(
                            qs,
                            k as nat,
                            i as int + 8,
                        ));
                    }
                    i = n;
                } else {
                    i = i + 8;
                }
            }
            proof {
                assert(spec_packed_from(qs, k as nat, n as int) =~= Seq::<u8>::empty());
                assert(output@ =~= seq![quant_bits] + spec_packed_from(qs, k as nat, 0));
            }
            Ok(output)
        } else {
            let shift: u32 = if quant_bits <= 15 {
                quant_bits as u32
            } else {
                15
            };
            let k: u32 = 16 - shift;
            let divisor = pow2_u64(shift);
            let pow_k = pow2_u128(k);
            let ghost qs = spec_quantized16(data@, shift as nat);
            proof {
                lemma_samples_of_in_range(data@);
                lemma_pow2_values();
                lemma_pow2_adds(shift as nat, k as nat);
                assert(output@ + spec_packed_from(qs, k as nat, 0) =~= seq![quant_bits]
                    + spec_packed_from(qs, k as nat, 0));
            }
            let samples = data.len() / 2;
            let mut i: usize = 0;
            while i < samples
                invariant
                    0 <= i <= samples,
                    output@ + spec_packed_from(qs, k as nat, i as int) == seq![quant_bits]
                        + spec_packed_from(qs, k as nat, 0),
                decreases samples - i,
            {
                let ghost g = spec_group8(qs.skip(i as int));
                proof {
                    assert forall|j: int| 0 <= j < 8 implies 0 <= #[trigger] g[j] < spec_pow2(
                        k as nat,
                    ) by {
                        if i + j < samples {
                            vstd::arithmetic::div_mod::lemma_multiply_divide_lt(
                                spec_samples_of(data@)[i + j],
                                spec_pow2(shift as nat) as int,
                                spec_pow2(k as nat) as int,
                            );
                        }
                    }
                }
                let mut b: u128 = 0;
                let mut j: u32 = 0;
                while j < 8
                    invariant
                        0 <= j <= 8,
                        b == spec_group_value(g, k as nat, j as int),
                        b < spec_pow2((k * j) as nat),
                    decreases 8 - j,
                {
                    let v: u128 = if (j as usize) < samples - i {
                        (read_sample16(data, i + j as usize) as u128) / (divisor as u128)
                    } else {
                        0
                    };
                    proof {
                        assert(v == g[j as int]);
                        assert((k * j) as nat + k as nat == (k * (j + 1)) as nat)
                            by (nonlinear_arith);
                        lemma_pow2_adds((k * j) as nat, k as nat);
                        assert((k * (j + 1)) <= 128) by (nonlinear_arith)
                            requires
                                k <= 16,
                                j + 1 <= 8,
                        ;
                        lemma_pow2_le((k * (j + 1)) as nat, 128);
                        lemma_pow2_wide_values();
                        assert(b * pow_k + v < spec_pow2((k * (j + 1)) as nat))
                            by (nonlinear_arith)
                            requires
                                b < spec_pow2((k * j) as nat),
                                0 <= v < spec_pow2(k as nat),
                                pow_k == spec_pow2(k as nat),
                                pow_k >= 1,
                                spec_pow2((k * (j + 1)) as nat) == spec_pow2((k * j) as nat)
                                    * spec_pow2(k as nat),
                        ;
                    }
                    b = b * pow_k + v;
                    j = j + 1;
                }
                Self::push_group_bytes128(&mut output, b, k);
                proof {
                    assert(spec_packed_from(qs, k as nat, i as int) == spec_be_bytes(
                        b as int,
                        k as nat,
                    ) + spec_packed_from(qs, k as nat, i as int + 8));
                    assert(output@ + spec_packed_from(qs, k as nat, i as int + 8) =~= seq![
                        quant_bits,
                    ] + spec_packed_from(qs, k as nat, 0));
                }
                if samples - i <= 8 {
                    proof {
                        assert(spec_packed_from(qs, k as nat, samples as int)
                            =~= spec_packed_from(qs, k as nat, i as int + 8));
                    }
                    i = samples;
                } else {
                    i = i + 8;
                }
            }
            proof {
                assert(spec_packed_from(qs, k as nat, samples as int) =~= Seq::<u8>::empty());
                assert(output@ =~= seq![quant_bits] + spec_packed_from(qs, k as nat, 0));
            }
            Ok(output)
        }
    }

    /// Dequantize a packed payload: unpack each reduced-width field and
    /// shift it back into place; a trailing partial group is ignored.
    #[verifier::rlimit(100)]
    #[verifier::spinoff_prover]
    #[verifier::loop_isolation(false)]
    pub fn lossy_decode(&self, data: &[u8], bits_per_sample: u16) -> (r: Result<
        Vec<u8>,
        MedImgError,
    >)
        ensures
            r matches Ok(v) && v@ == spec_j2k_lossy_decode(data@, bits_per_sample),
    {
        let mut output: Vec<u8> = Vec::new();
        if data.len() == 0 {
            proof {
                assert(output@ =~= spec_j2k_lossy_decode(data@, bits_per_sample));
            }
            return Ok(output);
        }
        let qb = data[0];
        let ghost rest = data@.skip(1);
        let rest_len = data.len() - 1;
        if bits_per_sample <= 8 {
            let shift: u32 = if qb <= 7 {
                qb as u32
            } else {
                7
            };
            let k: u32 = 8 - shift;
            let mult = pow2_u64(shift);
            let pow_k = pow2_u64(k);
            let ghost full = spec_lossy_decode8_from(rest, k as nat, shift as nat, 0);
            proof {
                lemma_pow2_values();
                lemma_pow2_adds(k as nat, shift as nat);
                assert(full == spec_j2k_lossy_decode(data@, bits_per_sample));
                assert(output@ + full =~= full);
            }
            let mut pos: usize = 0;
            while rest_len >= k as usize && pos <= rest_len - k as usize
                invariant
                    0 <= pos,
                    pos <= rest_len || pos == 0,
                    output@ + spec_lossy_decode8_from(rest, k as nat, shift as nat, pos as int)
                        == full,
                decreases rest_len - pos,
            {
                let b = Self::read_be_value64(data, 1 + pos, k);
                proof {
                    assert(data@.subrange(1 + pos as int, 1 + pos as int + k as int)
                        =~= rest.subrange(pos as int, pos as int + k as int));
                }
                let ghost fields = spec_group_fields(
                    spec_be_value(rest.subrange(pos as int, pos as int + k as int)),
                    k as nat,
                );
                let ghost grp = Seq::new(
                    8,
                    |t: int| ((fields[t] * spec_pow2(shift as nat)) % 256) as u8,
                );
                let ghost pre = output@;
                let mut t: u32 = 0;
                while t < 8
                    invariant
                        0 <= t <= 8,
                        output@ == pre + grp.subrange(0, t as int),
                    decreases 8 - t,
                {
                    proof {
                        assert(k * (7 - t) <= 56) by (nonlinear_arith)
                            requires
                                k <= 8,
                                t <= 7,
                        ;
                    }
                    let p = pow2_u64(k * (7 - t));
                    let f = (b / p) % pow_k;
                    proof {
                        assert(f == fields[t as int]);
                        assert(f * mult < 256) by (nonlinear_arith)
                            requires
                                0 <= f < spec_pow2(k as nat),
                                mult == spec_pow2(shift as nat),
                                spec_pow2(k as nat) * spec_pow2(shift as nat) == 256,
                        ;
                        assert((fields[t as int] * spec_pow2(shift as nat)) % 256 == f * mult);
                    }
                    output.push((f * mult) as u8);
                    proof {
                        assert(output@ =~= pre + grp.subrange(0, t as int + 1));
                    }
                    t = t + 1;
                }
                proof {
                    assert(grp.subrange(0, 8) =~= grp);
                    assert(spec_lossy_decode8_from(rest, k as nat, shift as nat, pos as int)
                        == grp + spec_lossy_decode8_from(
                        rest,
                        k as nat,
                        shift as nat,
                        pos as int + k as int,
                    ));
                    assert(output@ + spec_lossy_decode8_from(
                        rest,
                        k as nat,
                        shift as nat,
                        pos as int + k as int,
                    ) =~= full);
                }
                pos = pos + k as usize;
            }
            proof {
                assert(spec_lossy_decode8_from(rest, k as nat, shift as nat, pos as int)
                    =~= Seq::<u8>::empty());
                assert(output@ =~= full);
            }
            Ok(output)
        } else {
            let shift: u32 = if qb <= 15 {
                qb as u32
            } else {
                15
            };
            let k: u32 = 16 - shift;
            let mult = pow2_u64(shift);
            let pow_k = pow2_u128(k);
            let ghost full = spec_lossy_decode16_from(rest, k as nat, shift as nat, 0);
            proof {
                lemma_pow2_values();
                lemma_pow2_adds(k as nat, shift as nat);
                assert(full == spec_j2k_lossy_decode(data@, bits_per_sample));
                assert(output@ + full =~= full);
            }
            let mut pos: usize = 0;
            while rest_len >= k as usize && pos <= rest_len - k as usize
                invariant
                    0 <= pos,
                    pos <= rest_len || pos == 0,
                    output@ + spec_lossy_decode16_from(rest, k as nat, shift as nat, pos as int)
                        == full,
                decreases rest_len - pos,
            {
                let b = Self::read_be_value128(data, 1 + pos, k);
                proof {
                    assert(data@.subrange(1 + pos as int, 1 + pos as int + k as int)
                        =~= rest.subrange(pos as int, pos as int + k as int));
                }
                let ghost fields = spec_group_fields(
                    spec_be_value(rest.subrange(pos as int, pos as int + k as int)),
                    k as nat,
                );
                let ghost vals = Seq::new(
                    8,
                    |t: int| (fields[t] * spec_pow2(shift as nat)) % 65536,
                );
                let ghost pre = output@;
                let mut t: u32 = 0;
                while t < 8
                    invariant
                        0 <= t <= 8,
                        output@ == pre + spec_le_bytes(vals.subrange(0, t as int)),
                    decreases 8 - t,
                {
                    proof {
                        assert(k * (7 - t) <= 112) by (nonlinear_arith)
                            requires
                                k <= 16,
                                t <= 7,
                        ;
                    }
                    let p = pow2_u128(k * (7 - t));
                    let f = (b / p) % pow_k;
                    proof {
                        assert(f == fields[t as int]);
                        assert(f * (mult as u128) < 65536) by (nonlinear_arith)
                            requires
                                0 <= f < spec_pow2(k as nat),
                                mult == spec_pow2(shift as nat),
                                spec_pow2(k as nat) * spec_pow2(shift as nat) == 65536,
                        ;
                        assert((fields[t as int] * spec_pow2(shift as nat)) % 65536 == f * (
                        mult as u128));
                        assert(vals.subrange(0, t as int + 1) =~= vals.subrange(0, t as int).push(
                            vals[t as int],
                        ));
                        lemma_le_bytes_push(vals.subrange(0, t as int), vals[t as int]);
                    }
                    let v = (f * (mult as u128)) as u16;
                    push_u16_le(&mut output, v);
                    proof {
                        assert(spec_u16_le(v) =~= seq![
                            (vals[t as int] % 256) as u8,
                            (vals[t as int] / 256) as u8,
                        ]);
                        assert(output@ =~= pre + spec_le_bytes(vals.subrange(0, t as int + 1)));
                    }
                    t = t + 1;
                }
                proof {
                    assert(vals.subrange(0, 8) =~= vals);
                    assert(spec_lossy_decode16_from(rest, k as nat, shift as nat, pos as int)
                        == spec_le_bytes(vals) + spec_lossy_decode16_from(
                        rest,
                        k as nat,
                        shift as nat,
                        pos as int + k as int,
                    ));
                    assert(output@ + spec_lossy_decode16_from(
                        rest,
                        k as nat,
                        shift as nat,
                        pos as int + k as int,
                    ) =~= full);
                }
                pos = pos + k as usize;
            }
            proof {
                assert(spec_lossy_decode16_from(rest, k as nat, shift as nat, pos as int)
                    =~= Seq::<u8>::empty());
                assert(output@ =~= full);
            }
            Ok(output)
        }
    }

    /// Build the size segment.
    #[verifier::loop_isolation(false)]
    pub fn create_siz_segment(&self, image: &ImageData) -> (r: Vec<u8>)
        requires
            1 <= image.bits_per_sample <= 16,
        ensures
            r@ == spec_siz_segment(
                image.width,
                image.height,
                image.bits_per_sample,
                image.samples_per_pixel,
                image.is_signed,
            ),
    {
        let mut segment: Vec<u8> = Vec::new();
        segment.push(0xFF);
        segment.push(0x51);
        let seg_length: usize = 38 + 3 * (image.samples_per_pixel as usize);
        push_u16_be(&mut segment, (seg_length % 0x10000) as u16);
        segment.push(0x00);
        segment.push(0x00);
        push_u32_be(&mut segment, image.width);
        push_u32_be(&mut segment, image.height);
        let mut k: usize = 0;
        while k < 8
            invariant
                0 <= k <= 8,
                segment@ == seq![0xFFu8, 0x51u8] + spec_u16_be(
                    ((38 + 3 * (image.samples_per_pixel as int)) % 0x10000) as u16,
                ) + seq![0u8, 0u8] + spec_u32_be(image.width) + spec_u32_be(image.height)
                    + Seq::new(k as nat, |i: int| 0u8),
            decreases 8 - k,
        {
            segment.push(0x00);
            proof {
                assert(Seq::new(k as nat + 1, |i: int| 0u8) =~= Seq::new(k as nat, |i: int| 0u8)
                    + seq![0u8]);
                assert(segment@ =~= seq![0xFFu8, 0x51u8] + spec_u16_be(
                    ((38 + 3 * (image.samples_per_pixel as int)) % 0x10000) as u16,
                ) + seq![0u8, 0u8] + spec_u32_be(image.width) + spec_u32_be(image.height)
                    + Seq::new(k as nat + 1, |i: int| 0u8));
            }
            k = k + 1;
        }
        proof {
            assert(Seq::new(8nat, |i: int| 0u8) =~= seq![0u8, 0u8, 0u8, 0u8, 0u8, 0u8, 0u8, 0u8]);
        }
        push_u32_be(&mut segment, image.width);
        push_u32_be(&mut segment, image.height);
        let mut k2: usize = 0;
        let ghost mid = segment@;
        while k2 < 8
            invariant
                0 <= k2 <= 8,
                segment@ == mid + Seq::new(k2 as nat, |i: int| 0u8),
            decreases 8 - k2,
        {
            segment.push(0x00);
            proof {
                assert(Seq::new(k2 as nat + 1, |i: int| 0u8) =~= Seq::new(k2 as nat, |i: int| 0u8)
                    + seq![0u8]);
                assert(segment@ =~= mid + Seq::new(k2 as nat + 1, |i: int| 0u8));
            }
            k2 = k2 + 1;
        }
        push_u16_be(&mut segment, image.samples_per_pixel);
        let ssiz: u8 = if image.is_signed {
            (image.bits_per_sample - 1 + 128) as u8
        } else {
            (image.bits_per_sample - 1) as u8
        };
        proof {
            assert(ssiz == spec_ssiz(image.bits_per_sample, image.is_signed));
        }
        let ghost prefix = segment@;
        proof {
            assert(Seq::new(8nat, |i: int| 0u8) =~= seq![0u8, 0u8, 0u8, 0u8, 0u8, 0u8, 0u8, 0u8]);
            assert(prefix =~= seq![0xFFu8, 0x51u8] + spec_u16_be(
                ((38 + 3 * (image.samples_per_pixel as int)) % 0x10000) as u16,
            ) + seq![0u8, 0u8] + spec_u32_be(image.width) + spec_u32_be(image.height) + seq![
                0u8,
                0u8,
                0u8,
                0u8,
                0u8,
                0u8,
                0u8,
                0u8,
            ] + spec_u32_be(image.width) + spec_u32_be(image.height) + seq![
                0u8,
                0u8,
                0u8,
                0u8,
                0u8,
                0u8,
                0u8,
                0u8,
            ] + spec_u16_be(image.samples_per_pixel));
            assert(segment@ =~= prefix + spec_siz_components(ssiz, 0));
        }
        let comps = image.samples_per_pixel as usize;
        let mut c: usize = 0;
        while c < comps
            invariant
                0 <= c <= comps,
                segment@ == prefix + spec_siz_components(ssiz, c as int),
            decreases comps - c,
        {
            segment.push(ssiz);
            segment.push(0x01);
            segment.push(0x01);
            proof {
                assert(segment@ =~= prefix + (spec_siz_components(ssiz, c as int) + seq![
                    ssiz,
                    1u8,
                    1u8,
                ]));
            }
            c = c + 1;
        }
        proof {
            assert(segment@ == spec_siz_segment(
                image.width,
                image.height,
                image.bits_per_sample,
                image.samples_per_pixel,
                image.is_signed,
            ));
        }
        segment
    }

    /// Build the coding-style segment.
    pub fn create_cod_segment(&self, config: &CompressionConfig) -> (r: Vec<u8>)
        ensures
            r@ == spec_cod_segment(
                config.quality_layers,
                config.mode == CompressionMode::Lossless,
            ),
    {
        let mut segment: Vec<u8> = Vec::new();
        segment.push(0xFF);
        segment.push(0x52);
        segment.push(0x00);
        segment.push(0x0C);
        segment.push(0x00);
        segment.push(0x00);
        push_u16_be(&mut segment, (config.quality_layers % 0x10000) as u16);
        segment.push(0x00);
        segment.push(0x05);
        segment.push(0x04);
        segment.push(0x04);
        segment.push(0x00);
        let transform: u8 = if config.mode == CompressionMode::Lossless {
            0x01
        } else {
            0x00
        };
        segment.push(transform);
        proof {
            assert(segment@ =~= spec_cod_segment(
                config.quality_layers,
                config.mode == CompressionMode::Lossless,
            ));
        }
        segment
    }

    /// Build the quantization segment.
    pub fn create_qcd_segment(&self, config: &CompressionConfig) -> (r: Vec<u8>)
        ensures
            r@ == spec_qcd_segment(config.mode == CompressionMode::Lossless),
    {
        let mut segment: Vec<u8> = Vec::new();
        segment.push(0xFF);
        segment.push(0x5C);
        if config.mode == CompressionMode::Lossless {
            segment.push(0x00);
            segment.push(0x04);
            segment.push(0x22);
            segment.push(0x00);
        } else {
            segment.push(0x00);
            segment.push(0x05);
            segment.push(0x42);
            segment.push(0x00);
            segment.push(0x88);
        }
        proof {
            assert(segment@ =~= spec_qcd_segment(config.mode == CompressionMode::Lossless));
        }
        segment
    }

    /// Compress the tile payload according to the configured mode.
    pub fn compress_tile_data(&self, image: &ImageData, config: &CompressionConfig) -> (r: Result<
        Vec<u8>,
        MedImgError,
    >)
        requires
            1 <= image.bits_per_sample <= 16,
        ensures
            r matches Ok(v) && v@ == spec_j2k_payload(*image, *config),
    {
        if config.mode == CompressionMode::Lossless {
            self.lossless_encode(image.pixel_data.as_slice(), image.bits_per_sample)
        } else {
            let ratio: u32 = match config.target_ratio {
                Some(v) => v,
                None => 10,
            };
            self.lossy_encode(image.pixel_data.as_slice(), image.bits_per_sample, ratio)
        }
    }

    /// Assemble the complete codestream.
    pub fn create_j2k_codestream(&self, image: &ImageData, config: &CompressionConfig) -> (r:
        Result<Vec<u8>, MedImgError>)
        requires
            1 <= image.bits_per_sample <= 16,
        ensures
            r matches Ok(v) && v@ == spec_j2k_codestream(*image, *config),
    {
        let mut codestream: Vec<u8> = Vec::new();
        codestream.push(0xFF);
        codestream.push(0x4F);
        proof {
            assert(codestream@ =~= seq![0xFFu8, 0x4Fu8]);
        }
        let mut siz = self.create_siz_segment(image);
        codestream.append(&mut siz);
        let mut cod = self.create_cod_segment(config);
        codestream.append(&mut cod);
        let mut qcd = self.create_qcd_segment(config);
        codestream.append(&mut qcd);
        let mut payload = match self.compress_tile_data(image, config) {
            Ok(v) => v,
            Err(e) => {
                return Err(e);
            },
        };
        let ghost pre_sot = codestream@;
        codestream.push(0xFF);
        codestream.push(0x90);
        let tile_length: u128 = 10 + payload.len() as u128;
        push_u16_be(&mut codestream, (tile_length % 0x10000) as u16);
        codestream.push(0x00);
        codestream.push(0x00);
        push_u32_be(&mut codestream, (tile_length % 0x1_0000_0000) as u32);
        codestream.push(0x00);
        codestream.push(0x01);
        codestream.push(0xFF);
        codestream.push(0x93);
        proof {
            assert(codestream@ =~= pre_sot + spec_sot_header(
                spec_j2k_payload(*image, *config).len() as int,
            ));
        }
        codestream.append(&mut payload);
        let ghost pre_end = codestream@;
        codestream.push(0xFF);
        codestream.push(0xD9);
        proof {
            assert(codestream@ =~= pre_end + seq![0xFFu8, 0xD9u8]);
            assert(codestream@ == spec_j2k_codestream(*image, *config));
        }
        Ok(codestream)
    }

    /// Calculate the pixel-buffer size the image geometry requires.
    pub fn calculate_expected_size(&self, image: &ImageData) -> (r: usize)
        requires
            spec_expected_size(
                image.width,
                image.height,
                image.bits_per_sample,
                image.samples_per_pixel,
            ) <= usize::MAX,
        ensures
            r == spec_expected_size(
                image.width,
                image.height,
                image.bits_per_sample,
                image.samples_per_pixel,
            ),
    {
        crate::expected_size_u128(
            image.width,
            image.height,
            image.bits_per_sample,
            image.samples_per_pixel,
        ) as usize
    }

    /// Encode image data to a codestream, validating geometry first: zero
    /// dimensions, an empty buffer, or a buffer smaller than the geometry
    /// requires are image-data errors; everything else encodes.
    pub fn encode(&self, image: &ImageData, config: &CompressionConfig) -> (r: Result<
        Vec<u8>,
        MedImgError,
    >)
        requires
            1 <= image.bits_per_sample <= 16,
        ensures
            (image.width == 0 || image.height == 0) ==> (r matches Err(e) && e is ImageData
                && e->ImageData_0@ == "Invalid image dimensions"@),
            (image.width != 0 && image.height != 0 && image.pixel_data@.len() == 0) ==> (
            r matches Err(e) && e is ImageData && e->ImageData_0@ == "Empty pixel data"@),
            (image.width != 0 && image.height != 0 && image.pixel_data@.len() > 0
                && (image.pixel_data@.len() as int) < spec_expected_size(
                image.width,
                image.height,
                image.bits_per_sample,
                image.samples_per_pixel,
            )) ==> (r matches Err(e) && e is ImageData && e->ImageData_0@
                == "Pixel data size mismatch: expected at least "@ + crate::text::spec_decimal(
                spec_expected_size(
                    image.width,
                    image.height,
                    image.bits_per_sample,
                    image.samples_per_pixel,
                ),
            ) + " bytes, got "@ + crate::text::spec_decimal(image.pixel_data@.len() as int)),
            (image.width != 0 && image.height != 0 && image.pixel_data@.len() > 0
                && (image.pixel_data@.len() as int) >= spec_expected_size(
                image.width,
                image.height,
                image.bits_per_sample,
                image.samples_per_pixel,
            )) ==> (r matches Ok(v) && v@ == spec_j2k_codestream(*image, *config)),
            r matches Ok(v) ==> (v@.len() >= 4 && v@[0] == 0xFF && v@[1] == 0x4F && v@[v@.len()
                - 2] == 0xFF && v@[v@.len() - 1] == 0xD9),
    {
        if image.width == 0 || image.height == 0 {
            return Err(MedImgError::ImageData("Invalid image dimensions".to_owned()));
        }
        if image.pixel_data.len() == 0 {
            return Err(MedImgError::ImageData("Empty pixel data".to_owned()));
        }
        let expected = crate::expected_size_u128(
            image.width,
            image.height,
            image.bits_per_sample,
            image.samples_per_pixel,
        );
        if (image.pixel_data.len() as u128) < expected {
            let mut message = "Pixel data size mismatch: expected at least ".to_owned();
            crate::text::append_decimal(&mut message, expected);
            message.append(" bytes, got ");
            crate::text::append_decimal(&mut message, image.pixel_data.len() as u128);
            return Err(MedImgError::ImageData(message));
        }
        let r = self.create_j2k_codestream(image, config);
        proof {
            lemma_j2k_codestream_markers(*image, *config);
        }
        r
    }

    /// Decode a codestream: validate the start marker, locate the tile
    /// payload by a linear scan for the data-start marker, bound it by the
    /// trailing end marker when present, and reconstruct.
    #[verifier::loop_isolation(false)]
    pub fn decode_j2k(
        &self,
        data: &[u8],
        width: u32,
        height: u32,
        bits_per_sample: u16,
        samples_per_pixel: u16,
    ) -> (r: Result<Vec<u8>, MedImgError>)
        ensures
            data@.len() < 4 ==> (r matches Err(e) && e is Codec && e->Codec_0@
                == "Invalid transform codestream: too short"@),
            (data@.len() >= 4 && !(data@[0] == 0xFF && data@[1] == 0x4F)) ==> (r matches Err(e)
                && e is Codec && e->Codec_0@
                == "Invalid transform codestream: missing start marker"@),
            (data@.len() >= 4 && data@[0] == 0xFF && data@[1] == 0x4F && spec_find_sod(data@)
                >= spec_j2k_end(data@)) ==> (r matches Err(e) && e is Codec && e->Codec_0@
                == "Invalid transform codestream: no tile data found"@),
            spec_j2k_parses(data@) ==> (r matches Ok(v) && v@ == spec_j2k_decoded(
                data@,
                bits_per_sample,
            )),
    {
        if data.len() < 4 {
            return Err(MedImgError::Codec("Invalid transform codestream: too short".to_owned()));
        }
        if !(data[0] == 0xFF && data[1] == 0x4F) {
            return Err(
                MedImgError::Codec(
                    "Invalid transform codestream: missing start marker".to_owned(),
                ),
            );
        }
        let n = data.len();
        let mut pos: usize = 2;
        let mut found = false;
        while !found && pos < n - 1
            invariant
                2 <= pos <= n - 1,
                found ==> (pos < n - 1 && data@[pos as int] == 0xFF && data@[pos as int + 1]
                    == 0x93),
                spec_find_sod(data@) == if found {
                    pos + 2
                } else {
                    spec_find_sod_from(data@, pos as int)
                },
            decreases
                    (if found {
                        0int
                    } else {
                        1int
                    }),
                    n - pos,
        {
            if data[pos] == 0xFF && data[pos + 1] == 0x93 {
                found = true;
            } else {
                pos = pos + 1;
            }
        }
        let sod = if found {
            pos + 2
        } else {
            pos
        };
        proof {
            assert(sod == spec_find_sod(data@));
        }
        let end = if data[n - 2] == 0xFF && data[n - 1] == 0xD9 {
            n - 2
        } else {
            n
        };
        proof {
            assert(end == spec_j2k_end(data@));
        }
        if sod >= end {
            return Err(
                MedImgError::Codec("Invalid transform codestream: no tile data found".to_owned()),
            );
        }
        let compressed = &data[sod..end];
        proof {
            assert(compressed@ == data@.subrange(sod as int, end as int));
        }
        let use_lossy = compressed.len() > 0 && compressed[0] < 16;
        let decoded = if use_lossy {
            match self.lossy_decode(compressed, bits_per_sample) {
                Ok(v) => v,
                Err(e) => {
                    return Err(e);
                },
            }
        } else {
            match self.lossless_decode(compressed, bits_per_sample) {
                Ok(v) => v,
                Err(e) => {
                    return Err(e);
                },
            }
        };
        Ok(decoded)
    }

    /// Decode a codestream into an image value with the given geometry.
    pub fn decode(
        &self,
        data: &[u8],
        width: u32,
        height: u32,
        bits_per_sample: u16,
        samples_per_pixel: u16,
    ) -> (r: Result<ImageData, MedImgError>)
        ensures
            r is Ok <==> spec_j2k_parses(data@),
            r matches Err(e) ==> e is Codec,
            r matches Ok(img) ==> (img.width == width && img.height == height
                && img.bits_per_sample == bits_per_sample && img.samples_per_pixel
                == samples_per_pixel && !img.is_signed && img.pixel_data@ == spec_j2k_decoded(
                data@,
                bits_per_sample,
            )),
    {
        let pixel_data = match self.decode_j2k(
            data,
            width,
            height,
            bits_per_sample,
            samples_per_pixel,
        ) {
            Ok(v) => v,
            Err(e) => {
                return Err(e);
            },
        };
        Ok(
            ImageData {
                width,
                height,
                bits_per_sample,
                samples_per_pixel,
                pixel_data,
                photometric_interpretation: String::new(),
                is_signed: false,
            },
        )
    }

    /// Codec description.
    pub fn info(&self) -> (r: CodecInfo)
        ensures
            r.name@ == "JPEG 2000"@,
            r.supports_lossless,
            r.supports_lossy,
            r.supports_progressive,
            !r.supports_roi,
            r.transfer_syntax_lossless matches Some(s) && s@ == "1.2.840.10008.1.2.4.90"@,
            r.transfer_syntax_lossy matches Some(s) && s@ == "1.2.840.10008.1.2.4.91"@,
    {
        proof {
            reveal_strlit("1.2.840.10008.1.2.4.90");
            reveal_strlit("1.2.840.10008.1.2.4.91");
        }
        CodecInfo {
            name: "JPEG 2000",
            version: "MVP 0.1",
            supports_lossless: true,
            supports_lossy: true,
            supports_progressive: true,
            supports_roi: false,
            transfer_syntax_lossless: Some(transfer_syntax::JPEG_2000_LOSSLESS),
            transfer_syntax_lossy: Some(transfer_syntax::JPEG_2000_LOSSY),
        }
    }

    /// Codec capabilities.
    pub fn capabilities(&self) -> (r: CodecCapabilities)
        ensures
            r == spec_j2k_capabilities(),
    {
        CodecCapabilities {
            max_bits_per_sample: 16,
            supports_signed: true,
            supports_color: true,
            supports_multiframe: true,
        }
    }

    /// Whether this codec can encode the given image: its bit depth, color
    /// and signedness must be within the declared capabilities.
    pub fn can_encode(&self, image: &ImageData) -> (r: bool)
        ensures
            r == spec_can_encode(spec_j2k_capabilities(), *image),
    {
        let caps = self.capabilities();
        caps.allows(image)
    }

    /// The transfer syntax identifier for the given mode.
    pub fn transfer_syntax_uid(&self, lossless: bool) -> (r: Option<&'static str>)
        ensures
            r matches Some(s) && s@ == if lossless {
                "1.2.840.10008.1.2.4.90"@
            } else {
                "1.2.840.10008.1.2.4.91"@
            },
    {
        let info = self.info();
        info.transfer_syntax_for(lossless)
    }
}

/// The declared capabilities of the transform-container codec.
pub open spec fn spec_j2k_capabilities() -> CodecCapabilities {
    CodecCapabilities {
        max_bits_per_sample: 16,
        supports_signed: true,
        supports_color: true,
        supports_multiframe: true,
    }
}

/// Each component contributes three bytes to the size segment.
pub proof fn lemma_siz_components_len(ssiz: u8, count: int)
    requires
        count >= 0,
    ensures
        spec_siz_components(ssiz, count).len() == 3 * count,
    decreases count,
{
    if count > 0 {
        lemma_siz_components_len(ssiz, count - 1);
    }
}

/// Whether the bytes of the codestream header contain no stray data-start
/// pattern before the real data-start marker (which occupies its last two
/// bytes).  Image fields are raw bytes in the header, so a width, height,
/// layer count or tile length whose encoding happens to contain the marker
/// pattern would derail the decoder's linear scan.
pub open spec fn spec_sod_at_header_end(img: ImageData, cfg: CompressionConfig) -> bool {
    let cs = spec_j2k_codestream(img, cfg);
    let h = spec_j2k_header(img, cfg).len() as int;
    forall|i: int| 2 <= i < h - 2 ==> !(#[trigger] cs[i] == 0xFF && cs[i + 1] == 0x93)
}

/// The linear scan finds the first data-start pattern.
proof fn lemma_find_sod_from_first(d: Seq<u8>, pos: int, k: int)
    requires
        2 <= pos <= k,
        k + 1 < d.len() - 1,
        d[k] == 0xFF,
        d[k + 1] == 0x93,
        forall|i: int| pos <= i < k ==> !(#[trigger] d[i] == 0xFF && d[i + 1] == 0x93),
    ensures
        spec_find_sod_from(d, pos) == k + 2,
    decreases k - pos,
{
    if pos < k {
        lemma_find_sod_from_first(d, pos + 1, k);
    }
}

/// Lossless round trip for the transform container: for a well-formed
/// buffer (the geometry invariant holds, with at least one pixel and one
/// component) whose first stored byte does not mimic a quantizer parameter,
/// and whose header fields do not mimic the data-start marker, decoding the
/// encoded codestream returns the pixel bytes exactly, at either bit depth.
#[verifier::rlimit(100)]
#[verifier::spinoff_prover]
pub proof fn lemma_j2k_lossless_round_trip(img: ImageData, cfg: CompressionConfig)
    requires
        cfg.mode == CompressionMode::Lossless,
        img.width >= 1,
        img.height >= 1,
        img.samples_per_pixel >= 1,
        1 <= img.bits_per_sample <= 16,
        img.pixel_data@.len() == spec_expected_size(
            img.width,
            img.height,
            img.bits_per_sample,
            img.samples_per_pixel,
        ),
        img.pixel_data@.len() > 0,
        img.pixel_data@[0] >= 16,
        spec_sod_at_header_end(img, cfg),
    ensures
        spec_j2k_parses(spec_j2k_codestream(img, cfg)),
        spec_j2k_decoded(spec_j2k_codestream(img, cfg), img.bits_per_sample)
            == img.pixel_data@,
{
    let d = img.pixel_data@;
    let cs = spec_j2k_codestream(img, cfg);
    let header = spec_j2k_header(img, cfg);
    let h = header.len() as int;
    let payload = spec_j2k_payload(img, cfg);
    lemma_siz_components_len(
        spec_ssiz(img.bits_per_sample, img.is_signed),
        img.samples_per_pixel as int,
    );
    // The payload has exactly one byte per stored byte of the buffer; at 16
    // bits the buffer length is even, so nothing is dropped.
    if img.bits_per_sample > 8 {
        assert(d.len() % 2 == 0) by {
            let w = img.width as int;
            let hh = img.height as int;
            let spp = img.samples_per_pixel as int;
            assert((w * hh * spp * 2) % 2 == 0) by (nonlinear_arith);
        }
        assert(payload.len() == d.len());
    } else {
        assert(payload.len() == d.len());
    }
    assert(cs.len() == h + payload.len() + 2);
    // The header ends with the data-start marker.
    assert(cs[h - 2] == 0xFF && cs[h - 1] == 0x93);
    // The scan stops exactly there.
    lemma_find_sod_from_first(cs, 2, h - 2);
    assert(spec_find_sod(cs) == h);
    // The trailing end marker bounds the payload.
    assert(cs[cs.len() - 2] == 0xFF && cs[cs.len() - 1] == 0xD9);
    assert(spec_j2k_end(cs) == cs.len() - 2);
    assert(cs.subrange(h, cs.len() - 2) =~= payload);
    // The first payload byte is the first sample byte, stored verbatim, so
    // the decoder picks delta reconstruction.
    assert(payload[0] == d[0]);
    if img.bits_per_sample <= 8 {
        lemma_undelta8_of_delta8(d, d.len() as int);
        assert(d.subrange(0, d.len() as int) =~= d);
    } else {
        lemma_undelta16_of_delta16(d, d.len() as int / 2);
        assert(d.subrange(0, 2 * (d.len() as int / 2)) =~= d);
    }
}

/// Lossy compression genuinely compresses: with a target ratio of at least
/// two the quantizer discards at least one bit per sample, the packed scan
/// then holds at most seven bits per sample, and once the image has enough
/// pixels to amortize the fixed marker overhead the whole codestream is
/// strictly shorter than the pixel buffer.
#[verifier::rlimit(100)]
#[verifier::spinoff_prover]
pub proof fn lemma_j2k_lossy_compresses(img: ImageData, cfg: CompressionConfig)
    requires
        cfg.mode != CompressionMode::Lossless,
        spec_ratio_of(cfg) >= 2,
        img.samples_per_pixel == 1,
        2 <= img.bits_per_sample <= 8,
        img.pixel_data@.len() == spec_expected_size(
            img.width,
            img.height,
            img.bits_per_sample,
            img.samples_per_pixel,
        ),
        (img.width as int) * (img.height as int) >= 714,
    ensures
        spec_j2k_codestream(img, cfg).len() < img.pixel_data@.len(),
{
    let d = img.pixel_data@;
    let n = d.len() as int;
    let w = img.width as int;
    let h = img.height as int;
    assert(spec_bytes_per_sample(img.bits_per_sample) == 1);
    assert(img.samples_per_pixel as int == 1);
    assert(n == ((w * h) * (img.samples_per_pixel as int)) * spec_bytes_per_sample(
        img.bits_per_sample,
    ));
    assert(((w * h) * 1) * 1 == w * h) by (nonlinear_arith);
    assert(n == w * h);
    let ratio = spec_ratio_of(cfg);
    assert(spec_log2_floor(ratio as nat) >= 1);
    let qb = spec_quant_bits(ratio, img.bits_per_sample);
    assert(1 <= qb <= 7);
    let shift: nat = qb as nat;
    let k: nat = (8 - shift) as nat;
    assert(1 <= k <= 7);
    let qs = spec_quantized8(d, shift);
    assert(forall|j: int| 0 <= j < qs.len() ==> #[trigger] qs[j] >= 0) by {
        assert forall|j: int| 0 <= j < qs.len() implies #[trigger] qs[j] >= 0 by {
            lemma_pow2_le(0, shift);
            vstd::arithmetic::div_mod::lemma_div_pos_is_pos(
                d[j] as int,
                spec_pow2(shift) as int,
            );
        }
    }
    lemma_packed_from_len(qs, k, 0);
    let m = (n + 7) / 8;
    let payload = spec_j2k_payload(img, cfg);
    assert(payload.len() == 1 + k * m);
    lemma_siz_components_len(
        spec_ssiz(img.bits_per_sample, img.is_signed),
        img.samples_per_pixel as int,
    );
    let cs = spec_j2k_codestream(img, cfg);
    assert(cs.len() == 83 + k * m);
    let rem = (n + 7) % 8;
    vstd::arithmetic::div_mod::lemma_fundamental_div_mod(n + 7, 8);
    assert(0 <= rem < 8);
    assert(n + 7 == 8 * m + rem);
    assert(k * m <= 7 * m) by (nonlinear_arith)
        requires
            k <= 7,
            m >= 0,
    ;
    assert(8 * (83 + 7 * m) == 664 + 7 * (8 * m));
    assert(8 * (83 + 7 * m) <= 7 * n + 713);
    assert(83 + 7 * m < n);
}

/// Marker invariants of the transform container: every codestream starts
/// with the codestream start marker and ends with the end marker.
pub proof fn lemma_j2k_codestream_markers(img: ImageData, cfg: CompressionConfig)
    ensures
        spec_j2k_codestream(img, cfg).len() >= 4,
        spec_j2k_codestream(img, cfg)[0] == 0xFF,
        spec_j2k_codestream(img, cfg)[1] == 0x4F,
        spec_j2k_codestream(img, cfg)[spec_j2k_codestream(img, cfg).len() - 2] == 0xFF,
        spec_j2k_codestream(img, cfg)[spec_j2k_codestream(img, cfg).len() - 1] == 0xD9,
{
    lemma_siz_components_len(
        spec_ssiz(img.bits_per_sample, img.is_signed),
        img.samples_per_pixel as int,
    );
    let cs = spec_j2k_codestream(img, cfg);
    let header = spec_j2k_header(img, cfg);
    assert(header.len() >= 2);
    assert(cs[0] == header[0]);
    assert(cs[1] == header[1]);
}

} // verus!
