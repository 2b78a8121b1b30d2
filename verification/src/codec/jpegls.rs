//! Prediction-style container codec.
//!
//! Emits and parses a marker-framed codestream around a predictive scan.
//! Samples are visited in raster order; each is predicted from already
//! reconstructed neighbors by a median-edge-detector predictor, and the
//! wrapped prediction residual is stored, quantized by the configured
//! tolerance in near-lossless mode.  Both the encoder and the decoder
//! predict from the reconstructed buffer, never from the source, at both
//! bit depths: an encoder that predicted from source samples instead would
//! let the decoder drift away from the values the encoder assumed, so
//! quantization error could compound across pixels.

use vstd::prelude::*;
use vstd::string::StringExecFns;

use crate::codec::bytes::{
    lemma_le_bytes_of_samples_of, lemma_le_bytes_push, lemma_mod_diff16,
    lemma_samples_of_in_range, lemma_samples_of_le_bytes, lemma_wadd_wsub8, push_u16_be,
    push_u16_le, read_sample16, spec_le_bytes, spec_sample16, spec_samples_of, spec_u16_be,
    spec_u16_le,
    spec_wadd8, spec_wsub8,
};
use crate::codec::traits::{spec_can_encode, CodecCapabilities, CodecInfo};
use crate::config::{transfer_syntax, CompressionConfig, CompressionMode};
use crate::error::MedImgError;
use crate::{spec_bytes_per_sample, spec_expected_size, ImageData};

verus! {

// ---------------------------------------------------------------------------
// The predictive scan, specification level
// ---------------------------------------------------------------------------

/// Clamp a value into an inclusive range.
pub open spec fn spec_clamp(v: int, lo: int, hi: int) -> int {
    if v < lo {
        lo
    } else if v > hi {
        hi
    } else {
        v
    }
}

/// The median-edge-detector prediction from left, above and above-left
/// neighbors: follow the flatter direction at an edge, else the plane
/// through the three neighbors, clamped to the sample range.
pub open spec fn spec_med_predict(a: int, b: int, c: int, maxval: int) -> int {
    let mx = if a >= b {
        a
    } else {
        b
    };
    let mn = if a <= b {
        a
    } else {
        b
    };
    if c >= mx {
        mn
    } else if c <= mn {
        mx
    } else {
        spec_clamp(a + b - c, 0, maxval)
    }
}

/// The 8-bit prediction for the sample at raster index `idx`, reading only
/// reconstructed samples before it: mid-range for the first pixel, the left
/// neighbor in the first row, the above neighbor in the first column, and
/// the median-edge-detector in the interior.
pub open spec fn spec_pred8(rec: Seq<u8>, w: int, idx: int) -> u8 {
    if idx == 0 {
        128u8
    } else if idx < w {
        rec[idx - 1]
    } else if idx % w == 0 {
        rec[idx - w]
    } else {
        spec_med_predict(
            rec[idx - 1] as int,
            rec[idx - w] as int,
            rec[idx - w - 1] as int,
            255,
        ) as u8
    }
}

/// A stored byte read as a signed residual.
pub open spec fn spec_signed8(b: u8) -> int {
    if b < 128 {
        b as int
    } else {
        b - 256
    }
}

/// Symmetric residual quantization with step `2*near + 1`.
pub open spec fn spec_quant8(e: int, near: int) -> int {
    let step = 2 * near + 1;
    if e >= 0 {
        (e + near) / step
    } else {
        -((near - e) / step)
    }
}

/// The byte stored for a wrapped residual: the quantized value in
/// near-lossless mode, the raw residual otherwise.
pub open spec fn spec_residual_byte8(err: u8, near: int) -> u8 {
    if near > 0 {
        (spec_quant8(spec_signed8(err), near) % 256) as u8
    } else {
        err
    }
}

/// The residual a stored byte reconstructs to: the dequantized value in
/// near-lossless mode, the byte itself otherwise.
pub open spec fn spec_dequant_byte8(rb: u8, near: int) -> u8 {
    if near > 0 {
        ((spec_signed8(rb) * (2 * near + 1)) % 256) as u8
    } else {
        rb
    }
}

/// The reconstructed buffer after coding the first `n` samples: the
/// prediction context both the encoder and the decoder use.
pub open spec fn spec_jls8_recon(d: Seq<u8>, w: int, near: int, n: int) -> Seq<u8>
    decreases n,
{
    if n <= 0 {
        Seq::empty()
    } else {
        let p = spec_jls8_recon(d, w, near, n - 1);
        let pred = spec_pred8(p, w, n - 1);
        let rb = spec_residual_byte8(spec_wsub8(d[n - 1], pred), near);
        p.push(spec_wadd8(pred, spec_dequant_byte8(rb, near)))
    }
}

/// The byte stored for the sample at raster index `i`.
pub open spec fn spec_jls8_residual_at(d: Seq<u8>, w: int, near: int, i: int) -> u8 {
    let pred = spec_pred8(spec_jls8_recon(d, w, near, i), w, i);
    spec_residual_byte8(spec_wsub8(d[i], pred), near)
}

/// The stored scan: one residual byte per sample.
pub open spec fn spec_jls8_residuals(d: Seq<u8>, w: int, near: int, n: int) -> Seq<u8> {
    if n <= 0 {
        Seq::empty()
    } else {
        Seq::new(n as nat, |i: int| spec_jls8_residual_at(d, w, near, i))
    }
}

/// The decoder's output after reading the first `n` stored bytes.
pub open spec fn spec_jls8_out(e: Seq<u8>, w: int, near: int, n: int) -> Seq<u8>
    decreases n,
{
    if n <= 0 {
        Seq::empty()
    } else {
        let p = spec_jls8_out(e, w, near, n - 1);
        let pred = spec_pred8(p, w, n - 1);
        p.push(spec_wadd8(pred, spec_dequant_byte8(e[n - 1], near)))
    }
}

/// The full decoder output for a `w` by `h` image: reconstructed samples as
/// far as the stored scan reaches, zero for the remainder.
pub open spec fn spec_jls8_decoded(e: Seq<u8>, w: int, h: int, near: int) -> Seq<u8> {
    let total = w * h;
    let n = if e.len() < total {
        e.len() as int
    } else {
        total
    };
    spec_jls8_out(e, w, near, n) + Seq::new((total - n) as nat, |i: int| 0u8)
}

// ---------------------------------------------------------------------------
// The predictive scan at 16 bits, over little-endian sample values
// ---------------------------------------------------------------------------

/// The 16-bit prediction for the sample at raster index `idx`, mirroring
/// the 8-bit predictor with a mid-range seed of 32768 and a sample range of
/// 0 to 65535.
pub open spec fn spec_pred16(rec: Seq<int>, w: int, idx: int) -> int {
    if idx == 0 {
        32768
    } else if idx < w {
        rec[idx - 1]
    } else if idx % w == 0 {
        rec[idx - w]
    } else {
        spec_med_predict(rec[idx - 1], rec[idx - w], rec[idx - w - 1], 65535)
    }
}

/// A stored sample value read as a signed residual.
pub open spec fn spec_signed16(v: int) -> int {
    if v < 32768 {
        v
    } else {
        v - 65536
    }
}

/// Symmetric residual quantization with step `2*nn + 1`, where `nn` is the
/// tolerance scaled by 256 for the 16-bit range.
pub open spec fn spec_quant16(e: int, nn: int) -> int {
    let step = 2 * nn + 1;
    if e >= 0 {
        (e + nn) / step
    } else {
        -((nn - e) / step)
    }
}

/// The sample value stored for a wrapped residual.
pub open spec fn spec_residual16(err: int, nn: int) -> int {
    if nn > 0 {
        spec_quant16(spec_signed16(err), nn) % 65536
    } else {
        err
    }
}

/// The residual a stored sample value reconstructs to.
pub open spec fn spec_dequant16(rv: int, nn: int) -> int {
    if nn > 0 {
        (spec_signed16(rv) * (2 * nn + 1)) % 65536
    } else {
        rv
    }
}

/// The reconstructed 16-bit sample values after coding the first `n`
/// samples.
pub open spec fn spec_jls16_recon(s: Seq<int>, w: int, nn: int, n: int) -> Seq<int>
    decreases n,
{
    if n <= 0 {
        Seq::empty()
    } else {
        let p = spec_jls16_recon(s, w, nn, n - 1);
        let pred = spec_pred16(p, w, n - 1);
        let rv = spec_residual16((s[n - 1] - pred) % 65536, nn);
        p.push((pred + spec_dequant16(rv, nn)) % 65536)
    }
}

/// The sample value stored for the sample at raster index `i`.
pub open spec fn spec_jls16_residual_at(s: Seq<int>, w: int, nn: int, i: int) -> int {
    let pred = spec_pred16(spec_jls16_recon(s, w, nn, i), w, i);
    spec_residual16((s[i] - pred) % 65536, nn)
}

/// The stored scan: one sample value per source sample.
pub open spec fn spec_jls16_residuals(s: Seq<int>, w: int, nn: int, n: int) -> Seq<int> {
    if n <= 0 {
        Seq::empty()
    } else {
        Seq::new(n as nat, |i: int| spec_jls16_residual_at(s, w, nn, i))
    }
}

/// The decoder's 16-bit output after reading the first `n` stored samples.
pub open spec fn spec_jls16_out(es: Seq<int>, w: int, nn: int, n: int) -> Seq<int>
    decreases n,
{
    if n <= 0 {
        Seq::empty()
    } else {
        let p = spec_jls16_out(es, w, nn, n - 1);
        let pred = spec_pred16(p, w, n - 1);
        p.push((pred + spec_dequant16(es[n - 1], nn)) % 65536)
    }
}

/// The full 16-bit decoder output for a `w` by `h` image, as bytes:
/// reconstructed samples as far as the stored scan reaches, zero bytes for
/// the remainder.
pub open spec fn spec_jls16_decoded(e: Seq<u8>, w: int, h: int, nn: int) -> Seq<u8> {
    let total = w * h;
    let avail = e.len() as int / 2;
    let n = if avail < total {
        avail
    } else {
        total
    };
    spec_le_bytes(spec_jls16_out(spec_samples_of(e), w, nn, n)) + Seq::new(
        (2 * (total - n)) as nat,
        |i: int| 0u8,
    )
}

// ---------------------------------------------------------------------------
// Scan lemmas, 16-bit
// ---------------------------------------------------------------------------

/// The 16-bit reconstruction holds one in-range value per coded sample.
pub proof fn lemma_jls16_recon_shape(s: Seq<int>, w: int, nn: int, n: int)
    requires
        n >= 0,
        nn >= 0,
        forall|i: int| 0 <= i < s.len() ==> 0 <= #[trigger] s[i] < 65536,
    ensures
        spec_jls16_recon(s, w, nn, n).len() == n,
        forall|i: int|
            0 <= i < n ==> 0 <= #[trigger] spec_jls16_recon(s, w, nn, n)[i] < 65536,
    decreases n,
{
    if n > 0 {
        lemma_jls16_recon_shape(s, w, nn, n - 1);
    }
}

/// Drift-freedom at 16 bits: decoding the stored scan rebuilds exactly the
/// encoder's reconstructed samples.
pub proof fn lemma_jls16_out_of_residuals(s: Seq<int>, w: int, nn: int, n: int, m: int)
    requires
        0 <= n <= m,
    ensures
        spec_jls16_out(spec_jls16_residuals(s, w, nn, m), w, nn, n) == spec_jls16_recon(
            s,
            w,
            nn,
            n,
        ),
    decreases n,
{
    let es = spec_jls16_residuals(s, w, nn, m);
    if n > 0 {
        lemma_jls16_out_of_residuals(s, w, nn, n - 1, m);
        assert(es[n - 1] == spec_jls16_residual_at(s, w, nn, n - 1));
        assert(spec_jls16_out(es, w, nn, n) =~= spec_jls16_recon(s, w, nn, n));
    } else {
        assert(spec_jls16_out(es, w, nn, n) =~= spec_jls16_recon(s, w, nn, n));
    }
}

/// With tolerance zero the 16-bit reconstruction is the source, sample for
/// sample.
pub proof fn lemma_jls16_recon_lossless(s: Seq<int>, w: int, n: int)
    requires
        w >= 1,
        0 <= n <= s.len(),
        forall|i: int| 0 <= i < s.len() ==> 0 <= #[trigger] s[i] < 65536,
    ensures
        spec_jls16_recon(s, w, 0, n) == s.subrange(0, n),
    decreases n,
{
    if n > 0 {
        lemma_jls16_recon_lossless(s, w, n - 1);
        let p = spec_jls16_recon(s, w, 0, n - 1);
        let pred = spec_pred16(p, w, n - 1);
        assert(forall|i: int| 0 <= i < n - 1 ==> 0 <= #[trigger] p[i] < 65536);
        assert(0 <= pred < 65536);
        lemma_mod_diff16(pred, s[n - 1]);
        assert(spec_jls16_recon(s, w, 0, n) =~= s.subrange(0, n));
    } else {
        assert(spec_jls16_recon(s, w, 0, n) =~= s.subrange(0, n));
    }
}

// ---------------------------------------------------------------------------
// Scan lemmas, 8-bit
// ---------------------------------------------------------------------------

/// The reconstructed buffer holds one sample per coded sample.
pub proof fn lemma_jls8_recon_len(d: Seq<u8>, w: int, near: int, n: int)
    requires
        n >= 0,
    ensures
        spec_jls8_recon(d, w, near, n).len() == n,
    decreases n,
{
    if n > 0 {
        lemma_jls8_recon_len(d, w, near, n - 1);
    }
}

/// Drift-freedom: decoding the stored scan rebuilds exactly the encoder's
/// reconstructed buffer, because both sides predict from it.
pub proof fn lemma_jls8_out_of_residuals(d: Seq<u8>, w: int, near: int, n: int, m: int)
    requires
        0 <= n <= m,
    ensures
        spec_jls8_out(spec_jls8_residuals(d, w, near, m), w, near, n) == spec_jls8_recon(
            d,
            w,
            near,
            n,
        ),
    decreases n,
{
    let e = spec_jls8_residuals(d, w, near, m);
    if n > 0 {
        lemma_jls8_out_of_residuals(d, w, near, n - 1, m);
        assert(e[n - 1] == spec_jls8_residual_at(d, w, near, n - 1));
        assert(spec_jls8_out(e, w, near, n) =~= spec_jls8_recon(d, w, near, n));
    } else {
        assert(spec_jls8_out(e, w, near, n) =~= spec_jls8_recon(d, w, near, n));
    }
}

/// With tolerance zero the reconstruction is the source, sample for sample.
pub proof fn lemma_jls8_recon_lossless(d: Seq<u8>, w: int, n: int)
    requires
        0 <= n <= d.len(),
    ensures
        spec_jls8_recon(d, w, 0, n) == d.subrange(0, n),
    decreases n,
{
    if n > 0 {
        lemma_jls8_recon_lossless(d, w, n - 1);
        let p = spec_jls8_recon(d, w, 0, n - 1);
        let pred = spec_pred8(p, w, n - 1);
        lemma_wadd_wsub8(pred, d[n - 1]);
        assert(spec_jls8_recon(d, w, 0, n) =~= d.subrange(0, n));
    } else {
        assert(spec_jls8_recon(d, w, 0, n) =~= d.subrange(0, n));
    }
}

/// The symmetric quantizer's reconstruction stays within the tolerance of
/// the residual, and the quantized value is small.
pub proof fn lemma_quant8_bound(e: int, near: int)
    requires
        -128 <= e <= 127,
        1 <= near <= 255,
    ensures
        -127 <= spec_quant8(e, near) <= 127,
        -near <= spec_quant8(e, near) * (2 * near + 1) - e <= near,
{
    let step = 2 * near + 1;
    if e >= 0 {
        let q = (e + near) / step;
        let r = (e + near) % step;
        vstd::arithmetic::div_mod::lemma_fundamental_div_mod(e + near, step);
        assert(0 <= r < step);
        assert(q * step == e + near - r);
        assert(q >= 0 && q <= 127) by (nonlinear_arith)
            requires
                q * step == e + near - r,
                0 <= r < step,
                0 <= e + near <= 382,
                3 <= step,
        ;
    } else {
        let m = (near - e) / step;
        let r = (near - e) % step;
        vstd::arithmetic::div_mod::lemma_fundamental_div_mod(near - e, step);
        assert(0 <= r < step);
        assert(m * step == near - e - r);
        assert(m >= 0 && m <= 127) by (nonlinear_arith)
            requires
                m * step == near - e - r,
                0 <= r < step,
                0 < near - e <= 383,
                3 <= step,
        ;
        assert((-m) * step == -(m * step)) by (nonlinear_arith);
        assert(spec_quant8(e, near) * step == -(m * step));
    }
}

/// A quantized value round-trips through its stored byte.
pub proof fn lemma_signed8_of_stored(q: int)
    requires
        -127 <= q <= 127,
    ensures
        spec_signed8(((q % 256) as u8)) == q,
{
    if q >= 0 {
        assert(q % 256 == q);
    } else {
        assert(q % 256 == q + 256);
    }
}

/// Congruences add under a common modulus.
proof fn lemma_mod_add(a: int, b: int, m: int)
    requires
        m > 0,
    ensures
        (a + b % m) % m == (a + b) % m,
{
    vstd::arithmetic::div_mod::lemma_add_mod_noop(a, b, m);
    vstd::arithmetic::div_mod::lemma_mod_twice(b, m);
    vstd::arithmetic::div_mod::lemma_add_mod_noop(a, b % m, m);
}

/// Whether `y` equals `x` shifted by at most `near`, modulo the 8-bit
/// sample range.
pub open spec fn spec_within_mod256(x: u8, y: u8, near: int) -> bool {
    let r = (y - x) % 256;
    r <= near || r >= 256 - near
}

/// Away from the range ends, the modular closeness is plain closeness.
pub proof fn lemma_within_mod256_abs(x: u8, y: u8, near: int)
    requires
        0 <= near,
        near <= x,
        x + near <= 255,
        spec_within_mod256(x, y, near),
    ensures
        x - near <= y <= x + near,
{
    if y >= x {
        assert((y - x) % 256 == y - x);
    } else {
        assert((y - x) % 256 == y - x + 256);
    }
}

/// One coding step stays within the tolerance, modulo the sample range:
/// the reconstructed sample equals the source sample shifted by the
/// quantization error.
#[verifier::rlimit(100)]
#[verifier::spinoff_prover]
proof fn lemma_jls8_step_close(x: u8, pred: u8, near: int)
    requires
        1 <= near <= 255,
    ensures
        spec_within_mod256(
            x,
            spec_wadd8(
                pred,
                spec_dequant_byte8(spec_residual_byte8(spec_wsub8(x, pred), near), near),
            ),
            near,
        ),
{
    let err = spec_wsub8(x, pred);
    let es = spec_signed8(err);
    let step = 2 * near + 1;
    lemma_quant8_bound(es, near);
    let q = spec_quant8(es, near);
    let rb = spec_residual_byte8(err, near);
    lemma_signed8_of_stored(q);
    assert(spec_signed8(rb) == q);
    let delta = q * step - es;
    let dqv = (q * step) % 256;
    let y = spec_wadd8(pred, spec_dequant_byte8(rb, near));
    assert(y == ((pred + dqv) % 256) as u8);
    lemma_mod_add(pred as int, q * step, 256);
    assert((pred + dqv) % 256 == (pred + (es + delta)) % 256);
    assert(es % 256 == (x - pred) % 256) by {
        if err < 128 {
        } else {
            assert(es == err - 256);
            assert(es % 256 == (err as int) % 256);
        }
        assert(err == ((x - pred) % 256) as u8);
        vstd::arithmetic::div_mod::lemma_mod_twice(x - pred, 256);
    }
    assert((pred + es + delta) % 256 == (x + delta) % 256) by {
        lemma_mod_add(pred as int + delta, es, 256);
        assert((pred + delta + es % 256) % 256 == (pred + delta + es) % 256);
        lemma_mod_add(pred as int + delta, x - pred, 256);
        assert((pred + delta + (x - pred) % 256) % 256 == (pred + delta + (x - pred)) % 256);
        assert(pred + delta + (x - pred) == x + delta);
    }
    assert(y == ((x + delta) % 256) as u8);
    vstd::arithmetic::div_mod::lemma_sub_mod_noop(x + delta, x as int, 256);
    vstd::arithmetic::div_mod::lemma_mod_twice(delta, 256);
    assert((y - x) % 256 == delta % 256);
    if delta >= 0 {
        assert(delta % 256 == delta);
    } else {
        assert(delta % 256 == delta + 256);
    }
}

/// Every reconstructed sample equals the source sample shifted by at most
/// the tolerance, modulo the sample range.  The congruence holds for every
/// input; only removing the wraparound needs a range condition.
pub proof fn lemma_jls8_recon_close(d: Seq<u8>, w: int, near: int, n: int)
    requires
        0 <= n <= d.len(),
        1 <= near <= 255,
    ensures
        spec_jls8_recon(d, w, near, n).len() == n,
        forall|i: int|
            0 <= i < n ==> #[trigger] spec_within_mod256(
                d[i],
                spec_jls8_recon(d, w, near, n)[i],
                near,
            ),
    decreases n,
{
    lemma_jls8_recon_len(d, w, near, n);
    if n > 0 {
        lemma_jls8_recon_close(d, w, near, n - 1);
        let p = spec_jls8_recon(d, w, near, n - 1);
        let rec = spec_jls8_recon(d, w, near, n);
        let pred = spec_pred8(p, w, n - 1);
        lemma_jls8_step_close(d[n - 1], pred, near);
        assert(rec[n - 1] == spec_wadd8(
            pred,
            spec_dequant_byte8(spec_residual_byte8(spec_wsub8(d[n - 1], pred), near), near),
        ));
        assert forall|i: int| 0 <= i < n implies #[trigger] spec_within_mod256(
            d[i],
            rec[i],
            near,
        ) by {
            if i < n - 1 {
                assert(rec[i] == p[i]);
                assert(spec_within_mod256(d[i], p[i], near));
            }
        }
    }
}

/// Whether `y` equals `x` shifted by at most `nn`, modulo the 16-bit
/// sample range.
pub open spec fn spec_within_mod65536(x: int, y: int, nn: int) -> bool {
    let r = (y - x) % 65536;
    r <= nn || r >= 65536 - nn
}

/// Away from the range ends, the modular closeness is plain closeness.
pub proof fn lemma_within_mod65536_abs(x: int, y: int, nn: int)
    requires
        0 <= nn,
        nn <= x,
        x + nn <= 65535,
        0 <= y < 65536,
        spec_within_mod65536(x, y, nn),
    ensures
        x - nn <= y <= x + nn,
{
    if y >= x {
        assert((y - x) % 65536 == y - x);
    } else {
        assert((y - x) % 65536 == y - x + 65536);
    }
}

/// A quantized 16-bit value round-trips through its stored sample value.
proof fn lemma_signed16_of_stored(q: int)
    requires
        -32767 <= q <= 32767,
    ensures
        spec_signed16(q % 65536) == q,
{
    if q >= 0 {
        assert(q % 65536 == q);
    } else {
        assert(q % 65536 == q + 65536);
    }
}

/// One 16-bit coding step stays within the scaled tolerance, modulo the
/// sample range.
#[verifier::rlimit(100)]
#[verifier::spinoff_prover]
proof fn lemma_jls16_step_close(x: int, pred: int, nn: int)
    requires
        0 <= x < 65536,
        0 <= pred < 65536,
        1 <= nn <= 65280,
    ensures
        spec_within_mod65536(
            x,
            (pred + spec_dequant16(spec_residual16((x - pred) % 65536, nn), nn)) % 65536,
            nn,
        ),
{
    let err = (x - pred) % 65536;
    let es = spec_signed16(err);
    let step = 2 * nn + 1;
    lemma_quant16_bound(es, nn);
    let q = spec_quant16(es, nn);
    let rv = spec_residual16(err, nn);
    lemma_signed16_of_stored(q);
    assert(spec_signed16(rv) == q);
    let delta = q * step - es;
    let dqv = (q * step) % 65536;
    let y = (pred + spec_dequant16(rv, nn)) % 65536;
    assert(y == (pred + dqv) % 65536);
    lemma_mod_add(pred, q * step, 65536);
    assert((pred + dqv) % 65536 == (pred + (es + delta)) % 65536);
    assert(es % 65536 == (x - pred) % 65536) by {
        if err < 32768 {
        } else {
            assert(es == err - 65536);
            vstd::arithmetic::div_mod::lemma_mod_multiples_vanish(-1, err, 65536);
        }
        vstd::arithmetic::div_mod::lemma_mod_twice(x - pred, 65536);
    }
    assert((pred + es + delta) % 65536 == (x + delta) % 65536) by {
        lemma_mod_add(pred + delta, es, 65536);
        assert((pred + delta + es % 65536) % 65536 == (pred + delta + es) % 65536);
        lemma_mod_add(pred + delta, x - pred, 65536);
        assert((pred + delta + (x - pred) % 65536) % 65536 == (pred + delta + (x - pred))
            % 65536);
        assert(pred + delta + (x - pred) == x + delta);
    }
    assert(y == (x + delta) % 65536);
    vstd::arithmetic::div_mod::lemma_sub_mod_noop(x + delta, x, 65536);
    vstd::arithmetic::div_mod::lemma_mod_twice(delta, 65536);
    assert((y - x) % 65536 == delta % 65536);
    if delta >= 0 {
        assert(delta % 65536 == delta);
    } else {
        assert(delta % 65536 == delta + 65536);
    }
}

/// Every reconstructed 16-bit sample equals the source sample shifted by at
/// most the scaled tolerance, modulo the sample range.
pub proof fn lemma_jls16_recon_close(s: Seq<int>, w: int, nn: int, n: int)
    requires
        w >= 1,
        0 <= n <= s.len(),
        1 <= nn <= 65280,
        forall|i: int| 0 <= i < s.len() ==> 0 <= #[trigger] s[i] < 65536,
    ensures
        spec_jls16_recon(s, w, nn, n).len() == n,
        forall|i: int|
            0 <= i < n ==> #[trigger] spec_within_mod65536(
                s[i],
                spec_jls16_recon(s, w, nn, n)[i],
                nn,
            ),
    decreases n,
{
    lemma_jls16_recon_shape(s, w, nn, n);
    if n > 0 {
        lemma_jls16_recon_close(s, w, nn, n - 1);
        lemma_jls16_recon_shape(s, w, nn, n - 1);
        let p = spec_jls16_recon(s, w, nn, n - 1);
        let rec = spec_jls16_recon(s, w, nn, n);
        let pred = spec_pred16(p, w, n - 1);
        assert(0 <= pred < 65536) by {
            if n - 1 == 0 {
            } else if n - 1 == w {
                vstd::arithmetic::div_mod::lemma_mod_self_0(w);
            }
        }
        lemma_jls16_step_close(s[n - 1], pred, nn);
        assert(rec[n - 1] == (pred + spec_dequant16(
            spec_residual16((s[n - 1] - pred) % 65536, nn),
            nn,
        )) % 65536);
        assert forall|i: int| 0 <= i < n implies #[trigger] spec_within_mod65536(
            s[i],
            rec[i],
            nn,
        ) by {
            if i < n - 1 {
                assert(rec[i] == p[i]);
                assert(spec_within_mod65536(s[i], p[i], nn));
            }
        }
    }
}

// ---------------------------------------------------------------------------
// Arithmetic helpers shared by the scan coder and decoder
// ---------------------------------------------------------------------------

/// Negation under a positive modulus.
proof fn lemma_neg_mod(x: int, m: int)
    requires
        x >= 0,
        m > 0,
    ensures
        (-x) % m == (m - x % m) % m,
{
    let q = x / m;
    let r = x % m;
    vstd::arithmetic::div_mod::lemma_fundamental_div_mod(x, m);
    assert(-x == m * (-q - 1) + (m - r)) by (nonlinear_arith)
        requires
            x == m * q + r,
    ;
    vstd::arithmetic::div_mod::lemma_mod_multiples_vanish(-q - 1, m - r, m);
}

/// The 16-bit quantizer analogue of the 8-bit bound.
pub proof fn lemma_quant16_bound(e: int, nn: int)
    requires
        -32768 <= e <= 32767,
        1 <= nn <= 65280,
    ensures
        -32767 <= spec_quant16(e, nn) <= 32767,
        -nn <= spec_quant16(e, nn) * (2 * nn + 1) - e <= nn,
{
    let step = 2 * nn + 1;
    if e >= 0 {
        let q = (e + nn) / step;
        let r = (e + nn) % step;
        vstd::arithmetic::div_mod::lemma_fundamental_div_mod(e + nn, step);
        assert(0 <= r < step);
        assert(q * step == e + nn - r);
        assert(q >= 0 && q <= 32767) by (nonlinear_arith)
            requires
                q * step == e + nn - r,
                0 <= r < step,
                0 <= e + nn <= 98047,
                3 <= step,
        ;
    } else {
        let m = (nn - e) / step;
        let r = (nn - e) % step;
        vstd::arithmetic::div_mod::lemma_fundamental_div_mod(nn - e, step);
        assert(0 <= r < step);
        assert(m * step == nn - e - r);
        assert(m >= 0 && m <= 32767) by (nonlinear_arith)
            requires
                m * step == nn - e - r,
                0 <= r < step,
                0 < nn - e <= 98048,
                3 <= step,
        ;
        assert((-m) * step == -(m * step)) by (nonlinear_arith);
        assert(spec_quant16(e, nn) * step == -(m * step));
    }
}

/// The 8-bit prediction for the next sample, from the reconstructed buffer.
fn jls_predict8(recon: &Vec<u8>, width: usize, idx: usize) -> (r: u8)
    requires
        width >= 1,
        recon@.len() == idx,
    ensures
        r == spec_pred8(recon@, width as int, idx as int),
{
    if idx == 0 {
        128
    } else if idx < width {
        recon[idx - 1]
    } else if idx % width == 0 {
        recon[idx - width]
    } else {
        proof {
            if idx == width {
                vstd::arithmetic::div_mod::lemma_mod_self_0(width as int);
            }
        }
        let a = recon[idx - 1] as i32;
        let b = recon[idx - width] as i32;
        let c = recon[idx - width - 1] as i32;
        let mx = if a >= b {
            a
        } else {
            b
        };
        let mn = if a <= b {
            a
        } else {
            b
        };
        if c >= mx {
            mn as u8
        } else if c <= mn {
            mx as u8
        } else {
            let v = a + b - c;
            let cl = if v < 0 {
                0
            } else if v > 255 {
                255
            } else {
                v
            };
            cl as u8
        }
    }
}


/// A sequence of 16-bit machine words as mathematical sample values.
pub open spec fn spec_ints_of_u16s(s: Seq<u16>) -> Seq<int> {
    Seq::new(s.len(), |i: int| s[i] as int)
}

/// The 16-bit prediction for the next sample, from a reconstructed buffer
/// held as machine words.
fn jls_predict16v(recon: &Vec<u16>, width: usize, idx: usize) -> (r: u16)
    requires
        width >= 1,
        recon@.len() == idx,
    ensures
        r == spec_pred16(spec_ints_of_u16s(recon@), width as int, idx as int),
{
    if idx == 0 {
        32768
    } else if idx < width {
        recon[idx - 1]
    } else if idx % width == 0 {
        recon[idx - width]
    } else {
        proof {
            if idx == width {
                vstd::arithmetic::div_mod::lemma_mod_self_0(width as int);
            }
        }
        let a = recon[idx - 1] as i32;
        let b = recon[idx - width] as i32;
        let c = recon[idx - width - 1] as i32;
        let mx = if a >= b {
            a
        } else {
            b
        };
        let mn = if a <= b {
            a
        } else {
            b
        };
        if c >= mx {
            mn as u16
        } else if c <= mn {
            mx as u16
        } else {
            let v = a + b - c;
            let cl = if v < 0 {
                0
            } else if v > 65535 {
                65535
            } else {
                v
            };
            cl as u16
        }
    }
}

/// The 16-bit prediction for the next sample, from the byte-serialized
/// reconstructed buffer.
fn jls_predict16(recon: &Vec<u8>, width: usize, idx: usize) -> (r: u16)
    requires
        width >= 1,
        recon@.len() == 2 * idx,
    ensures
        r == spec_pred16(spec_samples_of(recon@), width as int, idx as int),
{
    proof {
        lemma_samples_of_in_range(recon@);
    }
    if idx == 0 {
        32768
    } else if idx < width {
        read_sample16(recon.as_slice(), idx - 1)
    } else if idx % width == 0 {
        read_sample16(recon.as_slice(), idx - width)
    } else {
        proof {
            if idx == width {
                vstd::arithmetic::div_mod::lemma_mod_self_0(width as int);
            }
        }
        let a = read_sample16(recon.as_slice(), idx - 1) as i32;
        let b = read_sample16(recon.as_slice(), idx - width) as i32;
        let c = read_sample16(recon.as_slice(), idx - width - 1) as i32;
        let mx = if a >= b {
            a
        } else {
            b
        };
        let mn = if a <= b {
            a
        } else {
            b
        };
        if c >= mx {
            mn as u16
        } else if c <= mn {
            mx as u16
        } else {
            let v = a + b - c;
            let cl = if v < 0 {
                0
            } else if v > 65535 {
                65535
            } else {
                v
            };
            cl as u16
        }
    }
}

/// The byte stored for a wrapped 8-bit residual.
fn quant8_byte(err: u8, near: u8) -> (r: u8)
    ensures
        r == spec_residual_byte8(err, near as int),
{
    if near == 0 {
        return err;
    }
    let step: u32 = 2 * (near as u32) + 1;
    if err < 128 {
        let q: u32 = (err as u32 + near as u32) / step;
        proof {
            lemma_quant8_bound(spec_signed8(err), near as int);
            assert(spec_quant8(spec_signed8(err), near as int) == q);
        }
        q as u8
    } else {
        let mag: u32 = 256 - err as u32;
        let m: u32 = (near as u32 + mag) / step;
        proof {
            lemma_quant8_bound(spec_signed8(err), near as int);
            assert(spec_quant8(spec_signed8(err), near as int) == -(m as int));
            if m > 0 {
                assert((-(m as int)) % 256 == 256 - m);
            } else {
                assert((-(m as int)) % 256 == 0);
            }
        }
        if m == 0 {
            0
        } else {
            (256 - m) as u8
        }
    }
}

/// The residual an 8-bit stored byte reconstructs to.
fn dequant8_byte(rb: u8, near: u8) -> (r: u8)
    ensures
        r == spec_dequant_byte8(rb, near as int),
{
    if near == 0 {
        return rb;
    }
    let step: u32 = 2 * (near as u32) + 1;
    if rb < 128 {
        proof {
            assert((rb as int) * (step as int) <= 127 * 511) by (nonlinear_arith)
                requires
                    rb <= 127,
                    step <= 511,
            ;
        }
        let qs: u32 = (rb as u32) * step;
        ((qs % 256)) as u8
    } else {
        let m: u32 = 256 - rb as u32;
        proof {
            assert((m as int) * (step as int) <= 128 * 511) by (nonlinear_arith)
                requires
                    m <= 128,
                    step <= 511,
            ;
        }
        let ms: u32 = m * step;
        let mr: u32 = ms % 256;
        proof {
            assert(spec_signed8(rb) == -(m as int));
            assert((-(m as int)) * step == -((m as int) * step)) by (nonlinear_arith);
            lemma_neg_mod((m as int) * (step as int), 256);
        }
        if mr == 0 {
            0
        } else {
            (256 - mr) as u8
        }
    }
}

/// The sample value stored for a wrapped 16-bit residual.
fn quant16_val(err: u16, near: u8) -> (r: u16)
    requires
        near >= 1,
    ensures
        r as int == spec_residual16(err as int, 256 * (near as int)),
{
    let nn: u32 = 256 * (near as u32);
    let step: u32 = 2 * nn + 1;
    if err < 32768 {
        let q: u32 = (err as u32 + nn) / step;
        proof {
            lemma_quant16_bound(spec_signed16(err as int), nn as int);
            assert(spec_quant16(spec_signed16(err as int), nn as int) == q);
        }
        q as u16
    } else {
        let mag: u32 = 65536 - err as u32;
        let m: u32 = (nn + mag) / step;
        proof {
            lemma_quant16_bound(spec_signed16(err as int), nn as int);
            assert(spec_quant16(spec_signed16(err as int), nn as int) == -(m as int));
            if m > 0 {
                assert((-(m as int)) % 65536 == 65536 - m);
            } else {
                assert((-(m as int)) % 65536 == 0);
            }
        }
        if m == 0 {
            0
        } else {
            (65536 - m) as u16
        }
    }
}

/// The residual a 16-bit stored sample value reconstructs to.
fn dequant16_val(rv: u16, near: u8) -> (r: u16)
    requires
        near >= 1,
    ensures
        r as int == spec_dequant16(rv as int, 256 * (near as int)),
{
    let nn: u64 = 256 * (near as u64);
    let step: u64 = 2 * nn + 1;
    if rv < 32768 {
        proof {
            assert((rv as int) * (step as int) <= 32767 * 130561) by (nonlinear_arith)
                requires
                    rv <= 32767,
                    step <= 130561,
            ;
        }
        let qs: u64 = (rv as u64) * step;
        ((qs % 65536)) as u16
    } else {
        let m: u64 = 65536 - rv as u64;
        proof {
            assert((m as int) * (step as int) <= 32768 * 130561) by (nonlinear_arith)
                requires
                    m <= 32768,
                    step <= 130561,
            ;
        }
        let ms: u64 = m * step;
        let mr: u64 = ms % 65536;
        proof {
            assert(spec_signed16(rv as int) == -(m as int));
            assert((-(m as int)) * step == -((m as int) * step)) by (nonlinear_arith);
            lemma_neg_mod((m as int) * (step as int), 65536);
        }
        if mr == 0 {
            0
        } else {
            (65536 - mr) as u16
        }
    }
}


/// One step of the 8-bit coder: what pushing the next residual and the next
/// reconstructed sample does to the scan sequences.
proof fn lemma_jls8_step(d: Seq<u8>, w: int, near: int, n: int, pred: u8, rb: u8, rec_val: u8)
    requires
        0 <= n,
        pred == spec_pred8(spec_jls8_recon(d, w, near, n), w, n),
        rb == spec_residual_byte8(spec_wsub8(d[n], pred), near),
        rec_val == spec_wadd8(pred, spec_dequant_byte8(rb, near)),
    ensures
        rb == spec_jls8_residual_at(d, w, near, n),
        spec_jls8_recon(d, w, near, n + 1) == spec_jls8_recon(d, w, near, n).push(rec_val),
        spec_jls8_residuals(d, w, near, n + 1) == spec_jls8_residuals(d, w, near, n).push(rb),
{
    assert(spec_jls8_residuals(d, w, near, n + 1) =~= spec_jls8_residuals(d, w, near, n).push(
        rb,
    ));
}

/// One step of the 16-bit coder.
proof fn lemma_jls16_step(s: Seq<int>, w: int, nn: int, n: int, pred: int, rv: int, rec_val: int)
    requires
        0 <= n,
        pred == spec_pred16(spec_jls16_recon(s, w, nn, n), w, n),
        rv == spec_residual16((s[n] - pred) % 65536, nn),
        rec_val == (pred + spec_dequant16(rv, nn)) % 65536,
    ensures
        rv == spec_jls16_residual_at(s, w, nn, n),
        spec_jls16_recon(s, w, nn, n + 1) == spec_jls16_recon(s, w, nn, n).push(rec_val),
        spec_jls16_residuals(s, w, nn, n + 1) == spec_jls16_residuals(s, w, nn, n).push(rv),
{
    assert(spec_jls16_residuals(s, w, nn, n + 1) =~= spec_jls16_residuals(s, w, nn, n).push(
        rv,
    ));
}


/// Stored 16-bit residual values are 16-bit values.
proof fn lemma_residual16_in_range(s: Seq<int>, w: int, nn: int, i: int)
    requires
        nn >= 0,
        0 <= i < s.len(),
        forall|k: int| 0 <= k < s.len() ==> 0 <= #[trigger] s[k] < 65536,
    ensures
        0 <= spec_jls16_residual_at(s, w, nn, i) < 65536,
{
}


// ---------------------------------------------------------------------------
// Marker framing, specification level
// ---------------------------------------------------------------------------

/// The per-component triples of the frame segment: component id, fixed 1:1
/// sampling factors, unused table id.
pub open spec fn spec_sof_components(count: int) -> Seq<u8>
    decreases count,
{
    if count <= 0 {
        Seq::empty()
    } else {
        spec_sof_components(count - 1) + seq![(count % 256) as u8, 0x11u8, 0x00u8]
    }
}

/// The frame-description segment: precision, rows, columns, component
/// count and per-component parameters.
pub open spec fn spec_sof55_segment(
    bits_per_sample: u16,
    width: u32,
    height: u32,
    samples_per_pixel: u16,
) -> Seq<u8> {
    seq![0xFFu8, 0xF7u8] + spec_u16_be(((8 + 3 * (samples_per_pixel as int)) % 0x10000) as u16)
        + seq![(bits_per_sample % 256) as u8] + spec_u16_be(((height as int) % 0x10000) as u16)
        + spec_u16_be(((width as int) % 0x10000) as u16) + seq![(samples_per_pixel % 256) as u8]
        + spec_sof_components(samples_per_pixel as int)
}

/// The preset-parameters segment, emitted only in near-lossless mode: fixed
/// default thresholds, not derived from the image.
pub open spec fn spec_lse_segment() -> Seq<u8> {
    seq![
        0xFFu8,
        0xF8u8,
        0x00u8,
        0x0Du8,
        0x01u8,
        0x00u8,
        0xFFu8,
        0x00u8,
        0x03u8,
        0x00u8,
        0x07u8,
        0x00u8,
        0x15u8,
        0x00u8,
        0x40u8,
    ]
}

/// The per-component pairs of the scan-start segment: component id and
/// unused mapping table.
pub open spec fn spec_sos_components(count: int) -> Seq<u8>
    decreases count,
{
    if count <= 0 {
        Seq::empty()
    } else {
        spec_sos_components(count - 1) + seq![(count % 256) as u8, 0x00u8]
    }
}

/// The scan-start segment: component selectors, the tolerance byte, the
/// interleave mode (0 for a single component, 2 otherwise) and the unused
/// point transform.
pub open spec fn spec_sos_segment(samples_per_pixel: u16, near: u8) -> Seq<u8> {
    seq![0xFFu8, 0xDAu8] + spec_u16_be(((6 + 2 * (samples_per_pixel as int)) % 0x10000) as u16)
        + seq![(samples_per_pixel % 256) as u8] + spec_sos_components(samples_per_pixel as int)
        + seq![
        near,
        if samples_per_pixel > 1 {
            2u8
        } else {
            0u8
        },
        0x00u8,
    ]
}

/// Everything before the scan data.
pub open spec fn spec_jls_header(img: ImageData, near: u8) -> Seq<u8> {
    seq![0xFFu8, 0xD8u8] + spec_sof55_segment(
        img.bits_per_sample,
        img.width,
        img.height,
        img.samples_per_pixel,
    ) + (if near > 0 {
        spec_lse_segment()
    } else {
        Seq::<u8>::empty()
    }) + spec_sos_segment(img.samples_per_pixel, near)
}

/// The scan data for an image: the 8-bit or 16-bit predictive scan over the
/// whole rows the buffer holds, by declared bit depth.
pub open spec fn spec_jls_payload(img: ImageData, near: u8) -> Seq<u8> {
    let d = img.pixel_data@;
    let w = img.width as int;
    if (img.bits_per_sample + 7) / 8 == 1 {
        spec_jls8_residuals(d, w, near as int, (d.len() as int / w) * w)
    } else {
        spec_le_bytes(
            spec_jls16_residuals(
                spec_samples_of(d),
                w,
                256 * (near as int),
                ((d.len() as int / 2) / w) * w,
            ),
        )
    }
}

/// The complete codestream: header, scan data, end marker.
pub open spec fn spec_jls_codestream(img: ImageData, near: u8) -> Seq<u8> {
    spec_jls_header(img, near) + spec_jls_payload(img, near) + seq![0xFFu8, 0xD9u8]
}

/// The tolerance in effect for a configuration: the configured error bound
/// in near-lossless mode, zero otherwise.
pub open spec fn spec_jls_near(cfg: CompressionConfig) -> u8 {
    if cfg.mode == CompressionMode::NearLossless {
        cfg.near_lossless_error
    } else {
        0
    }
}

/// Clamped distance to the end of the buffer, the measure of the header
/// scan.
pub open spec fn spec_scan_remaining(d: Seq<u8>, pos: int) -> nat {
    if pos <= d.len() {
        (d.len() - pos) as nat
    } else {
        0
    }
}

/// What the header scan finds from a given offset: the tolerance byte and
/// the scan-data start, or nothing.  Markers are walked segment by segment,
/// zero-byte stuffing is skipped, and the scan-start segment yields the
/// tolerance byte stored after the component selectors.
pub open spec fn spec_jls_scan(d: Seq<u8>, pos: int) -> Option<(u8, int)>
    decreases spec_scan_remaining(d, pos),
{
    if pos >= d.len() - 1 {
        None
    } else if d[pos] != 0xFF {
        spec_jls_scan(d, pos + 1)
    } else {
        let marker = d[pos + 1];
        let p2 = pos + 2;
        if marker == 0xDA {
            if p2 + 2 > d.len() {
                None
            } else {
                let length = d[p2] * 256 + d[p2 + 1];
                if p2 + length > d.len() {
                    None
                } else if p2 + 2 >= d.len() {
                    None
                } else {
                    let ncomp = d[p2 + 2] as int;
                    let near_off = p2 + 3 + 2 * ncomp;
                    let near = if near_off < d.len() {
                        d[near_off]
                    } else {
                        0
                    };
                    Some((near, p2 + length))
                }
            }
        } else if marker == 0xD9 {
            None
        } else if marker == 0x00 {
            spec_jls_scan(d, p2)
        } else {
            if p2 + 2 <= d.len() {
                let length = d[p2] * 256 + d[p2 + 1];
                spec_jls_scan(d, p2 + length)
            } else {
                None
            }
        }
    }
}

/// Where the scan data ends: before a trailing end marker if present, else
/// at the end of the buffer.
pub open spec fn spec_jls_end(d: Seq<u8>) -> int {
    if d.len() >= 2 && d[d.len() - 2] == 0xFF && d[d.len() - 1] == 0xD9 {
        d.len() - 2
    } else {
        d.len() as int
    }
}

/// Whether a buffer passes the decoder's validation: long enough, starts
/// with the start-of-image marker, the header scan succeeds, and the scan
/// data region is nonempty.
pub open spec fn spec_jls_parses(d: Seq<u8>) -> bool {
    &&& d.len() >= 4
    &&& d[0] == 0xFF
    &&& d[1] == 0xD8
    &&& spec_jls_scan(d, 2) is Some
    &&& spec_jls_scan(d, 2)->Some_0.1 < spec_jls_end(d)
}

/// What decoding a whole buffer yields, when it yields anything: the scan
/// covers one row of reconstructed samples per image row and component.
pub open spec fn spec_jls_decoded(
    d: Seq<u8>,
    width: u32,
    height: u32,
    samples_per_pixel: u16,
    bits_per_sample: u16,
) -> Seq<u8> {
    let t = spec_jls_scan(d, 2)->Some_0;
    let payload = d.subrange(t.1, spec_jls_end(d));
    let rows = (height as int) * (samples_per_pixel as int);
    if (bits_per_sample + 7) / 8 == 1 {
        spec_jls8_decoded(payload, width as int, rows, t.0 as int)
    } else {
        spec_jls16_decoded(payload, width as int, rows, 256 * (t.0 as int))
    }
}

// ---------------------------------------------------------------------------
// The codec
// ---------------------------------------------------------------------------

/// Prediction-style container codec.
pub struct JpegLsCodec {
    /// Maximum near-lossless error tolerance (0 = lossless).
    pub near: u8,
}

impl JpegLsCodec {
    /// Create a new codec instance (lossless by default).
    pub fn new() -> (r: Self)
        ensures
            r.near == 0,
    {
        Self { near: 0 }
    }

    /// Create a codec configured for lossless compression.
    pub fn lossless() -> (r: Self)
        ensures
            r.near == 0,
    {
        Self { near: 0 }
    }

    /// Create a codec configured for near-lossless compression.
    pub fn near_lossless(tolerance: u8) -> (r: Self)
        ensures
            r.near == tolerance,
    {
        Self { near: tolerance }
    }

    /// Code the 8-bit predictive scan, appending one residual byte per
    /// sample of the whole rows the buffer holds.
    #[verifier::rlimit(100)]
    #[verifier::spinoff_prover]
    #[verifier::loop_isolation(false)]
    pub fn compress_8bit(&self, data: &[u8], width: usize, near: u8, output: &mut Vec<u8>)
        requires
            width >= 1,
        ensures
            final(output)@ == old(output)@ + spec_jls8_residuals(
                data@,
                width as int,
                near as int,
                (data@.len() as int / width as int) * (width as int),
            ),
    {
        let height = data.len() / width;
        proof {
            vstd::arithmetic::div_mod::lemma_fundamental_div_mod(data@.len() as int, width as int);
            assert((data@.len() as int / width as int) * (width as int) <= data@.len()) by (
            nonlinear_arith)
                requires
                    data@.len() == (width as int) * (data@.len() as int / width as int) + data@.len() as int % (
                    width as int),
                    data@.len() as int % (width as int) >= 0,
            ;
            assert((height as int) * (width as int) == (data@.len() as int / width as int) * (
            width as int)) by (nonlinear_arith)
                requires
                    height == data@.len() as int / width as int,
            ;
        }
        let total = height * width;
        let ghost d = data@;
        let ghost w = width as int;
        let mut recon: Vec<u8> = Vec::new();
        let mut idx: usize = 0;
        while idx < total
            invariant
                0 <= idx <= total,
                total <= d.len(),
                recon@ == spec_jls8_recon(d, w, near as int, idx as int),
                recon@.len() == idx,
                output@ == old(output)@ + spec_jls8_residuals(d, w, near as int, idx as int),
            decreases total - idx,
        {
            let pred = jls_predict8(&recon, width, idx);
            let err = data[idx].wrapping_sub(pred);
            let rb = quant8_byte(err, near);
            let dqb = dequant8_byte(rb, near);
            let rec_val = pred.wrapping_add(dqb);
            proof {
                assert(err == spec_wsub8(d[idx as int], pred)) by {
                    assert(d[idx as int] - pred >= 0 ==> (d[idx as int] - pred) % 256 == d[idx as int]
                        - pred);
                }
                assert(rec_val == spec_wadd8(pred, spec_dequant_byte8(rb, near as int))) by {
                    assert(pred + dqb <= 510);
                }
                lemma_jls8_step(d, w, near as int, idx as int, pred, rb, rec_val);
            }
            output.push(rb);
            recon.push(rec_val);
            proof {
                assert(output@ =~= old(output)@ + spec_jls8_residuals(
                    d,
                    w,
                    near as int,
                    idx as int + 1,
                ));
            }
            idx = idx + 1;
        }
    }

    /// One step of the 16-bit coder: code the sample at `idx`, appending
    /// its stored value to the scan and its reconstruction to the context.
    #[verifier::rlimit(100)]
    #[verifier::spinoff_prover]
    fn jls16_code_step(
        data: &[u8],
        width: usize,
        near: u8,
        idx: usize,
        recon: &mut Vec<u16>,
        output: &mut Vec<u8>,
    )
        requires
            width >= 1,
            2 * idx + 1 < data@.len(),
            spec_ints_of_u16s(old(recon)@) == spec_jls16_recon(
                spec_samples_of(data@),
                width as int,
                256 * (near as int),
                idx as int,
            ),
            old(recon)@.len() == idx,
        ensures
            spec_ints_of_u16s(final(recon)@) == spec_jls16_recon(
                spec_samples_of(data@),
                width as int,
                256 * (near as int),
                idx as int + 1,
            ),
            final(recon)@.len() == idx + 1,
            final(output)@ == old(output)@ + spec_u16_le(
                (spec_jls16_residual_at(
                    spec_samples_of(data@),
                    width as int,
                    256 * (near as int),
                    idx as int,
                )) as u16,
            ),
    {
        let ghost sam = spec_samples_of(data@);
        let ghost w = width as int;
        let ghost nn = 256 * (near as int);
        let ghost rc = spec_jls16_recon(sam, w, nn, idx as int);
        proof {
            lemma_samples_of_in_range(data@);
        }
        let pred = jls_predict16v(recon, width, idx);
        proof {
            assert(pred == spec_pred16(rc, w, idx as int));
        }
        let curr = read_sample16(data, idx);
        let err = curr.wrapping_sub(pred);
        proof {
            assert(curr == sam[idx as int]);
            assert(err == (sam[idx as int] - pred) % 65536);
        }
        let rv = if near > 0 {
            quant16_val(err, near)
        } else {
            err
        };
        let dqv = if near > 0 {
            dequant16_val(rv, near)
        } else {
            rv
        };
        let recon_val = pred.wrapping_add(dqv);
        proof {
            assert(rv as int == spec_residual16((sam[idx as int] - pred) % 65536, nn));
            assert(dqv as int == spec_dequant16(rv as int, nn));
            assert(recon_val as int == (pred + spec_dequant16(rv as int, nn)) % 65536) by {
                assert(pred + dqv <= 131070);
            }
            lemma_jls16_step(sam, w, nn, idx as int, pred as int, rv as int, recon_val as int);
        }
        push_u16_le(output, rv);
        recon.push(recon_val);
        proof {
            assert(spec_ints_of_u16s(recon@) =~= rc.push(recon_val as int));
        }
    }

    /// Code the 16-bit predictive scan, appending one little-endian stored
    /// sample per source sample of the whole rows the buffer holds.
    #[verifier::rlimit(100)]
    #[verifier::spinoff_prover]
    #[verifier::loop_isolation(false)]
    pub fn compress_16bit(&self, data: &[u8], width: usize, near: u8, output: &mut Vec<u8>)
        requires
            width >= 1,
        ensures
            final(output)@ == old(output)@ + spec_le_bytes(
                spec_jls16_residuals(
                    spec_samples_of(data@),
                    width as int,
                    256 * (near as int),
                    ((data@.len() as int / 2) / (width as int)) * (width as int),
                ),
            ),
    {
        let samples = data.len() / 2;
        let height = samples / width;
        let ghost sam = spec_samples_of(data@);
        let ghost w = width as int;
        let ghost nn = 256 * (near as int);
        proof {
            lemma_samples_of_in_range(data@);
            vstd::arithmetic::div_mod::lemma_fundamental_div_mod(samples as int, width as int);
            assert((samples as int / width as int) * (width as int) <= samples) by (
            nonlinear_arith)
                requires
                    samples == (width as int) * (samples as int / width as int) + samples as int % (
                    width as int),
                    samples as int % (width as int) >= 0,
            ;
            assert((height as int) * (width as int) == (samples as int / width as int) * (
            width as int)) by (nonlinear_arith)
                requires
                    height == samples as int / width as int,
            ;
        }
        let total = height * width;
        let mut recon: Vec<u16> = Vec::new();
        let mut idx: usize = 0;
        proof {
            assert(output@ =~= old(output)@ + spec_le_bytes(
                spec_jls16_residuals(sam, w, nn, 0),
            ));
            assert(spec_ints_of_u16s(recon@) =~= spec_jls16_recon(sam, w, nn, 0));
        }
        while idx < total
            invariant
                0 <= idx <= total,
                total <= sam.len(),
                spec_ints_of_u16s(recon@) == spec_jls16_recon(sam, w, nn, idx as int),
                recon@.len() == idx,
                output@ == old(output)@ + spec_le_bytes(
                    spec_jls16_residuals(sam, w, nn, idx as int),
                ),
            decreases total - idx,
        {
            Self::jls16_code_step(data, width, near, idx, &mut recon, output);
            proof {
                let rb16 = spec_jls16_residual_at(sam, w, nn, idx as int);
                assert(0 <= rb16 < 65536) by {
                    lemma_residual16_in_range(sam, w, nn, idx as int);
                }
                assert(spec_u16_le(rb16 as u16) =~= seq![(rb16 % 256) as u8, (rb16 / 256) as u8]);
                assert(spec_jls16_residuals(sam, w, nn, idx as int + 1) =~= spec_jls16_residuals(
                    sam,
                    w,
                    nn,
                    idx as int,
                ).push(rb16));
                lemma_le_bytes_push(spec_jls16_residuals(sam, w, nn, idx as int), rb16);
                assert(output@ =~= old(output)@ + spec_le_bytes(
                    spec_jls16_residuals(sam, w, nn, idx as int + 1),
                ));
            }
            idx = idx + 1;
        }
    }

    /// Decode the 8-bit predictive scan for a `width` by `height` image;
    /// samples past the end of the stored scan stay zero.
    #[verifier::rlimit(100)]
    #[verifier::spinoff_prover]
    #[verifier::loop_isolation(false)]
    pub fn decompress_8bit(&self, data: &[u8], width: usize, height: usize, near: u8) -> (r: Vec<
        u8,
    >)
        requires
            width * height <= usize::MAX,
        ensures
            r@ == spec_jls8_decoded(data@, width as int, height as int, near as int),
    {
        proof {
            assert((width as int) * (height as int) == (width * height) as int);
        }
        let total = width * height;
        let n = if data.len() < total {
            data.len()
        } else {
            total
        };
        let ghost e = data@;
        let ghost w = width as int;
        let mut output: Vec<u8> = Vec::new();
        let mut idx: usize = 0;
        while idx < n
            invariant
                0 <= idx <= n,
                n <= total,
                n <= e.len(),
                output@ == spec_jls8_out(e, w, near as int, idx as int),
                output@.len() == idx,
            decreases n - idx,
        {
            proof {
                if width == 0 {
                    assert(total == 0) by (nonlinear_arith)
                        requires
                            total == width * height,
                            width == 0,
                    ;
                }
            }
            let pred = jls_predict8(&output, width, idx);
            let dqb = dequant8_byte(data[idx], near);
            output.push(pred.wrapping_add(dqb));
            proof {
                assert(output@ =~= spec_jls8_out(e, w, near as int, idx as int + 1));
            }
            idx = idx + 1;
        }
        while idx < total
            invariant
                n <= idx <= total,
                output@ == spec_jls8_out(e, w, near as int, n as int) + Seq::new(
                    (idx - n) as nat,
                    |i: int| 0u8,
                ),
            decreases total - idx,
        {
            output.push(0);
            proof {
                assert(Seq::new((idx + 1 - n) as nat, |i: int| 0u8) =~= Seq::new(
                    (idx - n) as nat,
                    |i: int| 0u8,
                ) + seq![0u8]);
                assert(output@ =~= spec_jls8_out(e, w, near as int, n as int) + Seq::new(
                    (idx + 1 - n) as nat,
                    |i: int| 0u8,
                ));
            }
            idx = idx + 1;
        }
        proof {
            assert(output@ =~= spec_jls8_decoded(e, w, height as int, near as int));
        }
        output
    }

    /// Decode the 16-bit predictive scan for a `width` by `height` image;
    /// samples past the end of the stored scan stay zero.
    #[verifier::rlimit(100)]
    #[verifier::spinoff_prover]
    #[verifier::loop_isolation(false)]
    pub fn decompress_16bit(&self, data: &[u8], width: usize, height: usize, near: u8) -> (r: Vec<
        u8,
    >)
        requires
            (width as int) * (height as int) <= usize::MAX / 2,
        ensures
            r@ == spec_jls16_decoded(
                data@,
                width as int,
                height as int,
                256 * (near as int),
            ),
    {
        proof {
            assert((width as int) * (height as int) >= 0) by (nonlinear_arith);
        }
        let total = width * height;
        let samples = data.len() / 2;
        let n = if samples < total {
            samples
        } else {
            total
        };
        let ghost es = spec_samples_of(data@);
        let ghost w = width as int;
        let ghost nn = 256 * (near as int);
        proof {
            lemma_samples_of_in_range(data@);
        }
        let mut output: Vec<u8> = Vec::new();
        let mut idx: usize = 0;
        proof {
            assert(output@ =~= spec_le_bytes(spec_jls16_out(es, w, nn, 0)));
        }
        while idx < n
            invariant
                0 <= idx <= n,
                n <= total,
                n <= es.len(),
                es == spec_samples_of(data@),
                forall|k: int| 0 <= k < es.len() ==> 0 <= #[trigger] es[k] < 65536,
                output@ == spec_le_bytes(spec_jls16_out(es, w, nn, idx as int)),
                output@.len() == 2 * idx,
            decreases n - idx,
        {
            proof {
                if width == 0 {
                    assert(total == 0) by (nonlinear_arith)
                        requires
                            total == width * height,
                            width == 0,
                    ;
                }
            }
            let ghost ot = spec_jls16_out(es, w, nn, idx as int);
            proof {
                lemma_jls16_out_shape(es, w, nn, idx as int);
                lemma_samples_of_le_bytes(ot);
            }
            let pred = jls_predict16(&output, width, idx);
            proof {
                assert(spec_samples_of(output@) == ot);
                assert(pred == spec_pred16(ot, w, idx as int));
            }
            let ev = read_sample16(data, idx);
            let dqv = if near > 0 {
                dequant16_val(ev, near)
            } else {
                ev
            };
            proof {
                assert(ev == es[idx as int]);
                assert(dqv as int == spec_dequant16(es[idx as int], nn));
            }
            let value = pred.wrapping_add(dqv);
            push_u16_le(&mut output, value);
            proof {
                let rcv = (pred + spec_dequant16(es[idx as int], nn)) % 65536;
                assert(spec_jls16_out(es, w, nn, idx as int + 1) == ot.push(rcv));
                assert(value as int == rcv);
                lemma_le_bytes_push(ot, rcv);
                assert(spec_u16_le(value) =~= seq![(rcv % 256) as u8, (rcv / 256) as u8]);
                assert(output@ == spec_le_bytes(spec_jls16_out(es, w, nn, idx as int + 1)));
            }
            idx = idx + 1;
        }
        let ghost body = spec_le_bytes(spec_jls16_out(es, w, nn, n as int));
        let mut pad: usize = 0;
        proof {
            lemma_jls16_out_shape(es, w, nn, n as int);
        }
        while pad < 2 * (total - n)
            invariant
                0 <= pad <= 2 * (total - n),
                n <= total,
                output@ == body + Seq::new(pad as nat, |i: int| 0u8),
                body == spec_le_bytes(spec_jls16_out(es, w, nn, n as int)),
                body.len() == 2 * n,
            decreases 2 * (total - n) - pad,
        {
            output.push(0);
            proof {
                assert(Seq::new((pad + 1) as nat, |i: int| 0u8) =~= Seq::new(
                    pad as nat,
                    |i: int| 0u8,
                ) + seq![0u8]);
                assert(output@ =~= body + Seq::new((pad + 1) as nat, |i: int| 0u8));
            }
            pad = pad + 1;
        }
        proof {
            assert(output@ =~= spec_jls16_decoded(data@, w, height as int, nn));
        }
        output
    }

    /// Build the frame-description segment.
    #[verifier::loop_isolation(false)]
    pub fn create_sof55_segment(&self, image: &ImageData) -> (r: Vec<u8>)
        requires
            image.samples_per_pixel <= 255,
        ensures
            r@ == spec_sof55_segment(
                image.bits_per_sample,
                image.width,
                image.height,
                image.samples_per_pixel,
            ),
    {
        let mut segment: Vec<u8> = Vec::new();
        segment.push(0xFF);
        segment.push(0xF7);
        let length: usize = 8 + 3 * (image.samples_per_pixel as usize);
        push_u16_be(&mut segment, (length % 0x10000) as u16);
        segment.push((image.bits_per_sample % 256) as u8);
        push_u16_be(&mut segment, (image.height % 0x10000) as u16);
        push_u16_be(&mut segment, (image.width % 0x10000) as u16);
        segment.push((image.samples_per_pixel % 256) as u8);
        let ghost prefix = segment@;
        proof {
            assert(prefix =~= seq![0xFFu8, 0xF7u8] + spec_u16_be(
                ((8 + 3 * (image.samples_per_pixel as int)) % 0x10000) as u16,
            ) + seq![(image.bits_per_sample % 256) as u8] + spec_u16_be(
                ((image.height as int) % 0x10000) as u16,
            ) + spec_u16_be(((image.width as int) % 0x10000) as u16) + seq![
                (image.samples_per_pixel % 256) as u8,
            ]);
            assert(segment@ =~= prefix + spec_sof_components(0));
        }
        let comps = image.samples_per_pixel as usize;
        let mut c: usize = 0;
        while c < comps
            invariant
                0 <= c <= comps,
                comps <= 255,
                segment@ == prefix + spec_sof_components(c as int),
            decreases comps - c,
        {
            segment.push((c + 1) as u8);
            segment.push(0x11);
            segment.push(0x00);
            proof {
                assert(((c + 1) as int) % 256 == c + 1);
                assert(segment@ =~= prefix + (spec_sof_components(c as int) + seq![
                    ((c + 1) as int % 256) as u8,
                    0x11u8,
                    0x00u8,
                ]));
            }
            c = c + 1;
        }
        proof {
            assert(segment@ == spec_sof55_segment(
                image.bits_per_sample,
                image.width,
                image.height,
                image.samples_per_pixel,
            ));
        }
        segment
    }

    /// Build the preset-parameters segment (fixed default thresholds).
    pub fn create_lse_segment(&self, _near: u8) -> (r: Vec<u8>)
        ensures
            r@ == spec_lse_segment(),
    {
        let mut segment: Vec<u8> = Vec::new();
        segment.push(0xFF);
        segment.push(0xF8);
        segment.push(0x00);
        segment.push(0x0D);
        segment.push(0x01);
        segment.push(0x00);
        segment.push(0xFF);
        segment.push(0x00);
        segment.push(0x03);
        segment.push(0x00);
        segment.push(0x07);
        segment.push(0x00);
        segment.push(0x15);
        segment.push(0x00);
        segment.push(0x40);
        proof {
            assert(segment@ =~= spec_lse_segment());
        }
        segment
    }

    /// Build the scan-start segment.
    #[verifier::loop_isolation(false)]
    pub fn create_sos_segment(&self, image: &ImageData, near: u8) -> (r: Vec<u8>)
        requires
            image.samples_per_pixel <= 255,
        ensures
            r@ == spec_sos_segment(image.samples_per_pixel, near),
    {
        let mut segment: Vec<u8> = Vec::new();
        segment.push(0xFF);
        segment.push(0xDA);
        let length: usize = 6 + 2 * (image.samples_per_pixel as usize);
        push_u16_be(&mut segment, (length % 0x10000) as u16);
        segment.push((image.samples_per_pixel % 256) as u8);
        let ghost prefix = segment@;
        proof {
            assert(prefix =~= seq![0xFFu8, 0xDAu8] + spec_u16_be(
                ((6 + 2 * (image.samples_per_pixel as int)) % 0x10000) as u16,
            ) + seq![(image.samples_per_pixel % 256) as u8]);
            assert(segment@ =~= prefix + spec_sos_components(0));
        }
        let comps = image.samples_per_pixel as usize;
        let mut c: usize = 0;
        while c < comps
            invariant
                0 <= c <= comps,
                comps <= 255,
                segment@ == prefix + spec_sos_components(c as int),
            decreases comps - c,
        {
            segment.push((c + 1) as u8);
            segment.push(0x00);
            proof {
                assert(((c + 1) as int) % 256 == c + 1);
                assert(segment@ =~= prefix + (spec_sos_components(c as int) + seq![
                    ((c + 1) as int % 256) as u8,
                    0x00u8,
                ]));
            }
            c = c + 1;
        }
        segment.push(near);
        let interleave: u8 = if image.samples_per_pixel > 1 {
            2
        } else {
            0
        };
        segment.push(interleave);
        segment.push(0x00);
        proof {
            assert(segment@ =~= spec_sos_segment(image.samples_per_pixel, near));
        }
        segment
    }

    /// Code the scan data according to the declared bit depth.
    pub fn compress_data(&self, image: &ImageData, near: u8) -> (r: Result<Vec<u8>, MedImgError>)
        requires
            image.width >= 1,
            1 <= image.bits_per_sample,
        ensures
            r matches Ok(v) && v@ == spec_jls_payload(*image, near),
    {
        let mut output: Vec<u8> = Vec::new();
        let bytes_per_sample = ((image.bits_per_sample as usize) + 7) / 8;
        if bytes_per_sample == 1 {
            self.compress_8bit(
                image.pixel_data.as_slice(),
                image.width as usize,
                near,
                &mut output,
            );
        } else {
            self.compress_16bit(
                image.pixel_data.as_slice(),
                image.width as usize,
                near,
                &mut output,
            );
        }
        Ok(output)
    }

    /// Assemble the complete codestream.
    pub fn create_jls_codestream(&self, image: &ImageData, near: u8) -> (r: Result<
        Vec<u8>,
        MedImgError,
    >)
        requires
            image.width >= 1,
            1 <= image.bits_per_sample,
            image.samples_per_pixel <= 255,
        ensures
            r matches Ok(v) && v@ == spec_jls_codestream(*image, near),
    {
        let mut codestream: Vec<u8> = Vec::new();
        codestream.push(0xFF);
        codestream.push(0xD8);
        proof {
            assert(codestream@ =~= seq![0xFFu8, 0xD8u8]);
        }
        let mut sof = self.create_sof55_segment(image);
        codestream.append(&mut sof);
        if near > 0 {
            let mut lse = self.create_lse_segment(near);
            codestream.append(&mut lse);
        } else {
            proof {
                assert(codestream@ =~= codestream@ + Seq::<u8>::empty());
            }
        }
        let mut sos = self.create_sos_segment(image, near);
        codestream.append(&mut sos);
        let mut payload = match self.compress_data(image, near) {
            Ok(v) => v,
            Err(e) => {
                return Err(e);
            },
        };
        codestream.append(&mut payload);
        let ghost pre_end = codestream@;
        codestream.push(0xFF);
        codestream.push(0xD9);
        proof {
            assert(codestream@ =~= pre_end + seq![0xFFu8, 0xD9u8]);
            assert(codestream@ =~= spec_jls_codestream(*image, near));
        }
        Ok(codestream)
    }

    /// Encode image data to a codestream, validating geometry first: zero
    /// dimensions, an empty buffer, or a buffer smaller than the geometry
    /// requires are image-data errors; everything else encodes, with the
    /// tolerance taken from the configuration in near-lossless mode.
    pub fn encode(&self, image: &ImageData, config: &CompressionConfig) -> (r: Result<
        Vec<u8>,
        MedImgError,
    >)
        requires
            1 <= image.bits_per_sample <= 16,
            image.samples_per_pixel <= 255,
        ensures
            (image.width == 0 || image.height == 0) ==> (r matches Err(e) && e is ImageData
                && e->ImageData_0@ == "Invalid image dimensions"@),
            (image.width != 0 && image.height != 0 && image.pixel_data@.len() == 0) ==> (
            r matches Err(e) && e is ImageData && e->ImageData_0@ == "Empty pixel data"@),
            (image.width != 0 && image.height != 0 && image.pixel_data@.len() > 0
                && (image.pixel_data@.len() as int) < spec_expected_size(
                image.width,
                image.height,
                image.bits_per_sample,
                image.samples_per_pixel,
            )) ==> (r matches Err(e) && e is ImageData && e->ImageData_0@
                == "Pixel data size mismatch: expected at least "@ + crate::text::spec_decimal(
                spec_expected_size(
                    image.width,
                    image.height,
                    image.bits_per_sample,
                    image.samples_per_pixel,
                ),
            ) + " bytes, got "@ + crate::text::spec_decimal(image.pixel_data@.len() as int)),
            (image.width != 0 && image.height != 0 && image.pixel_data@.len() > 0
                && (image.pixel_data@.len() as int) >= spec_expected_size(
                image.width,
                image.height,
                image.bits_per_sample,
                image.samples_per_pixel,
            )) ==> (r matches Ok(v) && v@ == spec_jls_codestream(
                *image,
                spec_jls_near(*config),
            )),
            r matches Ok(v) ==> (v@.len() >= 4 && v@[0] == 0xFF && v@[1] == 0xD8 && v@[v@.len()
                - 2] == 0xFF && v@[v@.len() - 1] == 0xD9),
    {
        if image.width == 0 || image.height == 0 {
            return Err(MedImgError::ImageData("Invalid image dimensions".to_owned()));
        }
        if image.pixel_data.len() == 0 {
            return Err(MedImgError::ImageData("Empty pixel data".to_owned()));
        }
        let expected = crate::expected_size_u128(
            image.width,
            image.height,
            image.bits_per_sample,
            image.samples_per_pixel,
        );
        if (image.pixel_data.len() as u128) < expected {
            let mut message = "Pixel data size mismatch: expected at least ".to_owned();
            crate::text::append_decimal(&mut message, expected);
            message.append(" bytes, got ");
            crate::text::append_decimal(&mut message, image.pixel_data.len() as u128);
            return Err(MedImgError::ImageData(message));
        }
        let near = if config.mode == CompressionMode::NearLossless {
            config.near_lossless_error
        } else {
            0
        };
        let r = self.create_jls_codestream(image, near);
        proof {
            lemma_jls_codestream_markers(*image, near);
        }
        r
    }

    /// Parse the codestream header: walk marker segments, honoring zero-byte
    /// stuffing, until the scan-start segment, and return the tolerance byte
    /// and the offset of the scan data.
    #[verifier::loop_isolation(false)]
    pub fn parse_jls_header(&self, data: &[u8]) -> (r: Result<(u8, usize), MedImgError>)
        ensures
            match spec_jls_scan(data@, 2) {
                Some(t) => r matches Ok(v) && v.0 == t.0 && v.1 == t.1,
                None => r matches Err(e) && e is Codec && e->Codec_0@
                    == "Could not find the scan-start marker"@,
            },
    {
        let n = data.len();
        if n < 2 {
            return Err(
                MedImgError::Codec("Could not find the scan-start marker".to_owned()),
            );
        }
        let mut pos: usize = 2;
        while pos < n - 1
            invariant
                2 <= pos,
                n == data@.len(),
                spec_jls_scan(data@, 2) == spec_jls_scan(data@, pos as int),
            decreases n - pos,
        {
            if data[pos] != 0xFF {
                pos = pos + 1;
            } else {
                let marker = data[pos + 1];
                let p2 = pos + 2;
                if marker == 0xDA {
                    if p2 > n - 2 {
                        return Err(
                            MedImgError::Codec(
                                "Could not find the scan-start marker".to_owned(),
                            ),
                        );
                    }
                    let length = (data[p2] as usize) * 256 + (data[p2 + 1] as usize);
                    if length > n - p2 {
                        return Err(
                            MedImgError::Codec(
                                "Could not find the scan-start marker".to_owned(),
                            ),
                        );
                    }
                    if p2 + 2 >= n {
                        return Err(
                            MedImgError::Codec(
                                "Could not find the scan-start marker".to_owned(),
                            ),
                        );
                    }
                    let ncomp = data[p2 + 2] as usize;
                    let near_off: u128 = p2 as u128 + 3 + 2 * (ncomp as u128);
                    let near: u8 = if near_off < n as u128 {
                        data[near_off as usize]
                    } else {
                        0
                    };
                    return Ok((near, p2 + length));
                } else if marker == 0xD9 {
                    return Err(
                        MedImgError::Codec("Could not find the scan-start marker".to_owned()),
                    );
                } else if marker == 0x00 {
                    pos = p2;
                } else {
                    if p2 <= n - 2 {
                        let length = (data[p2] as usize) * 256 + (data[p2 + 1] as usize);
                        if length > n - p2 {
                            proof {
                                assert(spec_jls_scan(data@, p2 + length as int) is None);
                            }
                            return Err(
                                MedImgError::Codec(
                                    "Could not find the scan-start marker".to_owned(),
                                ),
                            );
                        }
                        pos = p2 + length;
                    } else {
                        pos = p2;
                    }
                }
            }
        }
        Err(MedImgError::Codec("Could not find the scan-start marker".to_owned()))
    }

    /// Decode a codestream: validate the start-of-image marker, locate the
    /// scan data through the header, bound it by the trailing end marker
    /// when present, and run the predictive reconstruction.
    pub fn decode_jls(
        &self,
        data: &[u8],
        width: u32,
        height: u32,
        bits_per_sample: u16,
        samples_per_pixel: u16,
    ) -> (r: Result<Vec<u8>, MedImgError>)
        requires
            1 <= bits_per_sample,
            (height as int) * (samples_per_pixel as int) <= usize::MAX,
            (width as int) * ((height as int) * (samples_per_pixel as int))
                * spec_bytes_per_sample(bits_per_sample) <= usize::MAX,
        ensures
            data@.len() < 4 ==> (r matches Err(e) && e is Codec && e->Codec_0@
                == "Invalid prediction codestream: too short"@),
            (data@.len() >= 4 && !(data@[0] == 0xFF && data@[1] == 0xD8)) ==> (r matches Err(e)
                && e is Codec && e->Codec_0@
                == "Invalid prediction codestream: missing start-of-image marker"@),
            (data@.len() >= 4 && data@[0] == 0xFF && data@[1] == 0xD8 && spec_jls_scan(
                data@,
                2,
            ) is None) ==> (r matches Err(e) && e is Codec && e->Codec_0@
                == "Could not find the scan-start marker"@),
            (data@.len() >= 4 && data@[0] == 0xFF && data@[1] == 0xD8 && (spec_jls_scan(
                data@,
                2,
            ) matches Some(t) && t.1 >= spec_jls_end(data@))) ==> (r matches Err(e)
                && e is Codec && e->Codec_0@
                == "Invalid prediction codestream: no image data"@),
            spec_jls_parses(data@) ==> (r matches Ok(v) && v@ == spec_jls_decoded(
                data@,
                width,
                height,
                samples_per_pixel,
                bits_per_sample,
            )),
    {
        if data.len() < 4 {
            return Err(
                MedImgError::Codec("Invalid prediction codestream: too short".to_owned()),
            );
        }
        if !(data[0] == 0xFF && data[1] == 0xD8) {
            return Err(
                MedImgError::Codec(
                    "Invalid prediction codestream: missing start-of-image marker".to_owned(),
                ),
            );
        }
        let (near, data_start) = match self.parse_jls_header(data) {
            Ok(v) => v,
            Err(e) => {
                return Err(e);
            },
        };
        let n = data.len();
        let data_end = if data[n - 2] == 0xFF && data[n - 1] == 0xD9 {
            n - 2
        } else {
            n
        };
        proof {
            assert(data_end == spec_jls_end(data@));
        }
        if data_start >= data_end {
            return Err(
                MedImgError::Codec("Invalid prediction codestream: no image data".to_owned()),
            );
        }
        let compressed = &data[data_start..data_end];
        proof {
            assert(compressed@ == data@.subrange(data_start as int, data_end as int));
        }
        let rows = (height as usize) * (samples_per_pixel as usize);
        let bytes_per_sample = ((bits_per_sample as usize) + 7) / 8;
        let output = if bytes_per_sample == 1 {
            proof {
                assert(spec_bytes_per_sample(bits_per_sample) == 1);
                assert((width as int) * (rows as int) * 1 == (width as int) * (
                rows as int)) by (nonlinear_arith);
            }
            self.decompress_8bit(compressed, width as usize, rows, near)
        } else {
            proof {
                assert(spec_bytes_per_sample(bits_per_sample) >= 2);
                assert((width as int) * (rows as int) <= usize::MAX / 2) by (nonlinear_arith)
                    requires
                        (width as int) * (rows as int) * spec_bytes_per_sample(
                            bits_per_sample,
                        ) <= usize::MAX,
                        spec_bytes_per_sample(bits_per_sample) >= 2,
                        width >= 0,
                        rows >= 0,
                ;
            }
            self.decompress_16bit(compressed, width as usize, rows, near)
        };
        Ok(output)
    }

    /// Decode a codestream into an image value with the given geometry.
    pub fn decode(
        &self,
        data: &[u8],
        width: u32,
        height: u32,
        bits_per_sample: u16,
        samples_per_pixel: u16,
    ) -> (r: Result<ImageData, MedImgError>)
        requires
            1 <= bits_per_sample,
            (height as int) * (samples_per_pixel as int) <= usize::MAX,
            (width as int) * ((height as int) * (samples_per_pixel as int))
                * spec_bytes_per_sample(bits_per_sample) <= usize::MAX,
        ensures
            r is Ok <==> spec_jls_parses(data@),
            r matches Err(e) ==> e is Codec,
            r matches Ok(img) ==> (img.width == width && img.height == height
                && img.bits_per_sample == bits_per_sample && img.samples_per_pixel
                == samples_per_pixel && !img.is_signed && img.pixel_data@ == spec_jls_decoded(
                data@,
                width,
                height,
                samples_per_pixel,
                bits_per_sample,
            )),
    {
        let pixel_data = match self.decode_jls(
            data,
            width,
            height,
            bits_per_sample,
            samples_per_pixel,
        ) {
            Ok(v) => v,
            Err(e) => {
                return Err(e);
            },
        };
        Ok(
            ImageData {
                width,
                height,
                bits_per_sample,
                samples_per_pixel,
                pixel_data,
                photometric_interpretation: String::new(),
                is_signed: false,
            },
        )
    }

    /// Codec description.
    pub fn info(&self) -> (r: CodecInfo)
        ensures
            r.name@ == "JPEG-LS"@,
            r.supports_lossless,
            r.supports_lossy,
            !r.supports_progressive,
            !r.supports_roi,
            r.transfer_syntax_lossless matches Some(s) && s@ == "1.2.840.10008.1.2.4.80"@,
            r.transfer_syntax_lossy matches Some(s) && s@ == "1.2.840.10008.1.2.4.81"@,
    {
        proof {
            reveal_strlit("1.2.840.10008.1.2.4.80");
            reveal_strlit("1.2.840.10008.1.2.4.81");
        }
        CodecInfo {
            name: "JPEG-LS",
            version: "MVP 0.1",
            supports_lossless: true,
            supports_lossy: true,
            supports_progressive: false,
            supports_roi: false,
            transfer_syntax_lossless: Some(transfer_syntax::JPEG_LS_LOSSLESS),
            transfer_syntax_lossy: Some(transfer_syntax::JPEG_LS_NEAR_LOSSLESS),
        }
    }

    /// Codec capabilities.
    pub fn capabilities(&self) -> (r: CodecCapabilities)
        ensures
            r == spec_jls_capabilities(),
    {
        CodecCapabilities {
            max_bits_per_sample: 16,
            supports_signed: true,
            supports_color: true,
            supports_multiframe: true,
        }
    }

    /// Whether this codec can encode the given image: its bit depth, color
    /// and signedness must be within the declared capabilities.
    pub fn can_encode(&self, image: &ImageData) -> (r: bool)
        ensures
            r == spec_can_encode(spec_jls_capabilities(), *image),
    {
        let caps = self.capabilities();
        caps.allows(image)
    }

    /// The transfer syntax identifier for the given mode.
    pub fn transfer_syntax_uid(&self, lossless: bool) -> (r: Option<&'static str>)
        ensures
            r matches Some(s) && s@ == if lossless {
                "1.2.840.10008.1.2.4.80"@
            } else {
                "1.2.840.10008.1.2.4.81"@
            },
    {
        let info = self.info();
        info.transfer_syntax_for(lossless)
    }
}

/// The declared capabilities of the prediction-container codec.
pub open spec fn spec_jls_capabilities() -> CodecCapabilities {
    CodecCapabilities {
        max_bits_per_sample: 16,
        supports_signed: true,
        supports_color: true,
        supports_multiframe: true,
    }
}

/// Each component contributes three bytes to the frame segment.
pub proof fn lemma_sof_components_len(count: int)
    requires
        count >= 0,
    ensures
        spec_sof_components(count).len() == 3 * count,
    decreases count,
{
    if count > 0 {
        lemma_sof_components_len(count - 1);
    }
}

/// Each component contributes two bytes to the scan-start segment.
pub proof fn lemma_sos_components_len(count: int)
    requires
        count >= 0,
    ensures
        spec_sos_components(count).len() == 2 * count,
    decreases count,
{
    if count > 0 {
        lemma_sos_components_len(count - 1);
    }
}

/// The header scan of a constructed codestream finds the scan-start
/// segment: it skips the frame segment and the preset-parameters segment by
/// their length fields and reads back exactly the tolerance that was
/// written, returning the offset where the scan data begins.
#[verifier::rlimit(100)]
#[verifier::spinoff_prover]
pub proof fn lemma_jls_scan_of_codestream(img: ImageData, near: u8)
    requires
        1 <= img.samples_per_pixel <= 255,
        spec_jls_payload(img, near).len() >= 1,
    ensures
        spec_jls_scan(spec_jls_codestream(img, near), 2) == Some(
            (near, spec_jls_header(img, near).len() as int),
        ),
{
    let spp = img.samples_per_pixel as int;
    lemma_sof_components_len(spp);
    lemma_sos_components_len(spp);
    let cs = spec_jls_codestream(img, near);
    let header = spec_jls_header(img, near);
    let sof = spec_sof55_segment(
        img.bits_per_sample,
        img.width,
        img.height,
        img.samples_per_pixel,
    );
    let lse: Seq<u8> = if near > 0 {
        spec_lse_segment()
    } else {
        Seq::<u8>::empty()
    };
    let sos = spec_sos_segment(img.samples_per_pixel, near);
    assert(sof.len() == 10 + 3 * spp);
    assert(sos.len() == 8 + 2 * spp);
    let sos_start = 2 + sof.len() as int + lse.len() as int;
    let hlen = header.len() as int;
    assert(hlen == sos_start + 8 + 2 * spp);
    assert(cs.len() >= hlen + 3);
    // the frame segment and its length field
    assert(cs[2] == 0xFF && cs[3] == 0xF7);
    assert(cs[4] == sof[2] && cs[5] == sof[3]);
    assert(cs[4] * 256 + cs[5] == 8 + 3 * spp) by {
        assert(sof[2] == (((8 + 3 * spp) % 0x10000) as u16 / 256) as u8);
        assert(sof[3] == (((8 + 3 * spp) % 0x10000) as u16 % 256) as u8);
        assert((8 + 3 * spp) % 0x10000 == 8 + 3 * spp);
    }
    assert(spec_jls_scan(cs, 2) == spec_jls_scan(cs, 12 + 3 * spp));
    if near > 0 {
        // the preset-parameters segment and its fixed length field
        assert(lse.len() == 15);
        assert(cs[12 + 3 * spp] == 0xFF && cs[12 + 3 * spp + 1] == 0xF8);
        assert(cs[12 + 3 * spp + 2] == 0x00 && cs[12 + 3 * spp + 3] == 0x0D);
        assert(spec_jls_scan(cs, 12 + 3 * spp) == spec_jls_scan(cs, 27 + 3 * spp));
        assert(sos_start == 27 + 3 * spp);
    } else {
        assert(sos_start == 12 + 3 * spp);
    }
    // the scan-start segment
    assert(cs[sos_start] == 0xFF && cs[sos_start + 1] == 0xDA);
    let p2 = sos_start + 2;
    assert(cs[p2] == sos[2] && cs[p2 + 1] == sos[3]);
    assert(cs[p2] * 256 + cs[p2 + 1] == 6 + 2 * spp) by {
        assert(sos[2] == (((6 + 2 * spp) % 0x10000) as u16 / 256) as u8);
        assert(sos[3] == (((6 + 2 * spp) % 0x10000) as u16 % 256) as u8);
        assert((6 + 2 * spp) % 0x10000 == 6 + 2 * spp);
    }
    assert(cs[p2 + 2] == sos[4]);
    assert(sos[4] == (img.samples_per_pixel % 256) as u8);
    assert(cs[p2 + 2] as int == spp);
    let near_off = p2 + 3 + 2 * spp;
    assert(cs[near_off] == sos[5 + 2 * spp]);
    assert(sos[5 + 2 * spp] == near);
    assert(p2 + (6 + 2 * spp) == hlen);
    assert(spec_jls_scan(cs, sos_start) == Some((near, hlen)));
}

/// The payload of an exactly sized single-component image covers every
/// sample, and the codestream around it parses with the scan data region
/// exactly the payload.
#[verifier::rlimit(100)]
#[verifier::spinoff_prover]
proof fn lemma_jls_frame(img: ImageData, near: u8)
    requires
        img.width >= 1,
        img.height >= 1,
        1 <= img.samples_per_pixel <= 255,
        1 <= img.bits_per_sample <= 16,
        img.pixel_data@.len() == spec_expected_size(
            img.width,
            img.height,
            img.bits_per_sample,
            img.samples_per_pixel,
        ),
    ensures
        spec_jls_payload(img, near).len() == img.pixel_data@.len(),
        img.bits_per_sample <= 8 ==> spec_jls_payload(img, near) == spec_jls8_residuals(
            img.pixel_data@,
            img.width as int,
            near as int,
            (img.width as int) * ((img.height as int) * (img.samples_per_pixel as int)),
        ),
        img.bits_per_sample > 8 ==> spec_jls_payload(img, near) == spec_le_bytes(
            spec_jls16_residuals(
                spec_samples_of(img.pixel_data@),
                img.width as int,
                256 * (near as int),
                (img.width as int) * ((img.height as int) * (img.samples_per_pixel as int)),
            ),
        ),
        img.pixel_data@.len() == (img.width as int) * ((img.height as int) * (
        img.samples_per_pixel as int)) * spec_bytes_per_sample(img.bits_per_sample),
        spec_jls_parses(spec_jls_codestream(img, near)),
        spec_jls_scan(spec_jls_codestream(img, near), 2) == Some(
            (near, spec_jls_header(img, near).len() as int),
        ),
        spec_jls_end(spec_jls_codestream(img, near)) == spec_jls_codestream(img, near).len()
            - 2,
        spec_jls_codestream(img, near).subrange(
            spec_jls_header(img, near).len() as int,
            spec_jls_codestream(img, near).len() - 2,
        ) == spec_jls_payload(img, near),
{
    let d = img.pixel_data@;
    let w = img.width as int;
    let rows = (img.height as int) * (img.samples_per_pixel as int);
    let bps = spec_bytes_per_sample(img.bits_per_sample);
    assert(rows >= 1) by (nonlinear_arith)
        requires
            img.height >= 1,
            img.samples_per_pixel >= 1,
            rows == (img.height as int) * (img.samples_per_pixel as int),
    ;
    assert(d.len() == w * rows * bps) by (nonlinear_arith)
        requires
            d.len() == ((img.width * img.height) as int * (img.samples_per_pixel as int)) * bps,
            w == img.width,
            rows == (img.height as int) * (img.samples_per_pixel as int),
            bps == spec_bytes_per_sample(img.bits_per_sample),
    ;
    if img.bits_per_sample <= 8 {
        assert(bps == 1);
        assert(d.len() == w * rows) by (nonlinear_arith)
            requires
                d.len() == w * rows * bps,
                bps == 1,
        ;
        assert((d.len() as int / w) * w == w * rows) by (nonlinear_arith)
            requires
                d.len() == w * rows,
                w >= 1,
                rows >= 0,
        ;
        assert(spec_jls8_residuals(d, w, near as int, w * rows).len() == w * rows) by {
            assert(w * rows >= 1) by (nonlinear_arith)
                requires
                    w >= 1,
                    rows >= 1,
            ;
        }
    } else {
        assert(bps == 2);
        assert(d.len() == 2 * (w * rows) && (d.len() as int / 2) == w * rows)
            by (nonlinear_arith)
            requires
                d.len() == w * rows * bps,
                bps == 2,
        ;
        assert(((d.len() as int / 2) / w) * w == w * rows) by (nonlinear_arith)
            requires
                d.len() as int / 2 == w * rows,
                w >= 1,
                rows >= 0,
        ;
        let res16 = spec_jls16_residuals(spec_samples_of(d), w, 256 * (near as int), w * rows);
        assert(w * rows >= 1) by (nonlinear_arith)
            requires
                w >= 1,
                rows >= 1,
        ;
        assert(res16.len() == w * rows);
        assert(spec_le_bytes(res16).len() == 2 * (w * rows));
    }
    assert(spec_jls_payload(img, near).len() == d.len());
    assert(d.len() >= 1) by (nonlinear_arith)
        requires
            d.len() == w * rows * bps,
            w >= 1,
            rows >= 1,
            bps >= 1,
    ;
    lemma_jls_scan_of_codestream(img, near);
    let cs = spec_jls_codestream(img, near);
    let hlen = spec_jls_header(img, near).len() as int;
    lemma_jls_codestream_markers(img, near);
    assert(cs[cs.len() - 2] == 0xFF && cs[cs.len() - 1] == 0xD9);
    assert(spec_jls_end(cs) == cs.len() - 2);
    assert(cs.subrange(hlen, cs.len() - 2) =~= spec_jls_payload(img, near));
}

/// Lossless round trip for the prediction container: for a well-formed
/// single-component buffer in lossless mode, decoding the encoded
/// codestream returns the pixel bytes exactly, at either bit depth.
#[verifier::rlimit(100)]
#[verifier::spinoff_prover]
pub proof fn lemma_jls_lossless_round_trip(img: ImageData, cfg: CompressionConfig)
    requires
        cfg.mode == CompressionMode::Lossless,
        img.width >= 1,
        img.height >= 1,
        1 <= img.samples_per_pixel <= 255,
        1 <= img.bits_per_sample <= 16,
        img.pixel_data@.len() == spec_expected_size(
            img.width,
            img.height,
            img.bits_per_sample,
            img.samples_per_pixel,
        ),
    ensures
        spec_jls_parses(spec_jls_codestream(img, spec_jls_near(cfg))),
        spec_jls_decoded(
            spec_jls_codestream(img, spec_jls_near(cfg)),
            img.width,
            img.height,
            img.samples_per_pixel,
            img.bits_per_sample,
        ) == img.pixel_data@,
{
    let d = img.pixel_data@;
    let w = img.width as int;
    let rows = (img.height as int) * (img.samples_per_pixel as int);
    lemma_jls_frame(img, 0);
    let cs = spec_jls_codestream(img, 0);
    let payload = spec_jls_payload(img, 0);
    if img.bits_per_sample <= 8 {
        assert(payload == spec_jls8_residuals(d, w, 0, w * rows));
        assert(payload.len() == w * rows);
        lemma_jls8_out_of_residuals(d, w, 0, w * rows, w * rows);
        lemma_jls8_recon_lossless(d, w, w * rows);
        assert(spec_jls8_decoded(payload, w, rows, 0) =~= d);
    } else {
        let sam = spec_samples_of(d);
        lemma_samples_of_in_range(d);
        let nn = 0int;
        let res16 = spec_jls16_residuals(sam, w, nn, w * rows);
        assert(payload == spec_le_bytes(res16));
        assert(forall|i: int| 0 <= i < res16.len() ==> 0 <= #[trigger] res16[i] < 65536) by {
            assert forall|i: int| 0 <= i < res16.len() implies 0 <= #[trigger] res16[i]
                < 65536 by {
                lemma_residual16_in_range(sam, w, nn, i);
            }
        }
        lemma_samples_of_le_bytes(res16);
        assert(payload.len() == 2 * (w * rows));
        lemma_jls16_out_of_residuals(sam, w, nn, w * rows, w * rows);
        lemma_jls16_recon_lossless(sam, w, w * rows);
        assert(sam.subrange(0, w * rows) =~= sam);
        assert(sam.len() == w * rows);
        lemma_le_bytes_of_samples_of(d, w * rows);
        assert(spec_samples_of(d).subrange(0, w * rows) =~= spec_samples_of(d));
        assert(d.subrange(0, 2 * (w * rows)) =~= d);
        assert(spec_jls16_decoded(payload, w, rows, 0) =~= d);
    }
}

/// Near-lossless bound for the prediction container's 8-bit path: every
/// decoded sample equals its source sample shifted by at most the tolerance,
/// modulo the sample range; and wherever the source sample lies at least the
/// tolerance away from the range ends, the plain absolute error is at most
/// the tolerance (and so within the quantization step bound).
#[verifier::rlimit(100)]
#[verifier::spinoff_prover]
pub proof fn lemma_jls_near_lossless_bound(img: ImageData, cfg: CompressionConfig)
    requires
        cfg.mode == CompressionMode::NearLossless,
        1 <= cfg.near_lossless_error,
        img.width >= 1,
        img.height >= 1,
        1 <= img.samples_per_pixel <= 255,
        1 <= img.bits_per_sample <= 8,
        img.pixel_data@.len() == spec_expected_size(
            img.width,
            img.height,
            img.bits_per_sample,
            img.samples_per_pixel,
        ),
    ensures
        spec_jls_parses(spec_jls_codestream(img, spec_jls_near(cfg))),
        ({
            let out = spec_jls_decoded(
                spec_jls_codestream(img, spec_jls_near(cfg)),
                img.width,
                img.height,
                img.samples_per_pixel,
                img.bits_per_sample,
            );
            let near = cfg.near_lossless_error as int;
            &&& out.len() == img.pixel_data@.len()
            &&& forall|i: int|
                0 <= i < out.len() ==> #[trigger] spec_within_mod256(
                    img.pixel_data@[i],
                    out[i],
                    near,
                )
            &&& forall|i: int|
                0 <= i < out.len() && near <= img.pixel_data@[i] && img.pixel_data@[i] + near
                    <= 255 ==> -near <= img.pixel_data@[i] - #[trigger] out[i] <= near
        }),
{
    let d = img.pixel_data@;
    let w = img.width as int;
    let rows = (img.height as int) * (img.samples_per_pixel as int);
    let near = cfg.near_lossless_error;
    lemma_jls_frame(img, near);
    let payload = spec_jls_payload(img, near);
    assert(payload == spec_jls8_residuals(d, w, near as int, w * rows));
    assert(payload.len() == w * rows);
    lemma_jls8_out_of_residuals(d, w, near as int, w * rows, w * rows);
    lemma_jls8_recon_close(d, w, near as int, w * rows);
    let out = spec_jls_decoded(
        spec_jls_codestream(img, near),
        img.width,
        img.height,
        img.samples_per_pixel,
        img.bits_per_sample,
    );
    assert(out =~= spec_jls8_recon(d, w, near as int, w * rows));
    assert forall|i: int|
        0 <= i < out.len() && near <= d[i] && d[i] + near <= 255 implies -(near as int) <= d[i]
        - #[trigger] out[i] <= near by {
        assert(spec_within_mod256(d[i], out[i], near as int));
        lemma_within_mod256_abs(d[i], out[i], near as int);
    }
}

/// Near-lossless bound for the prediction container's 16-bit path.  With
/// prediction unified on the reconstructed buffer on both sides, the 8-bit
/// guarantee carries over at the scaled tolerance: every decoded sample
/// equals its source sample shifted by at most 256 times the configured
/// error bound, modulo the sample range; and wherever the source sample
/// lies at least the scaled tolerance away from the range ends, the plain
/// absolute error is at most the scaled tolerance.
#[verifier::rlimit(100)]
#[verifier::spinoff_prover]
pub proof fn lemma_jls16_near_lossless_bound(img: ImageData, cfg: CompressionConfig)
    requires
        cfg.mode == CompressionMode::NearLossless,
        1 <= cfg.near_lossless_error,
        img.width >= 1,
        img.height >= 1,
        1 <= img.samples_per_pixel <= 255,
        9 <= img.bits_per_sample <= 16,
        img.pixel_data@.len() == spec_expected_size(
            img.width,
            img.height,
            img.bits_per_sample,
            img.samples_per_pixel,
        ),
    ensures
        spec_jls_parses(spec_jls_codestream(img, spec_jls_near(cfg))),
        ({
            let out = spec_jls_decoded(
                spec_jls_codestream(img, spec_jls_near(cfg)),
                img.width,
                img.height,
                img.samples_per_pixel,
                img.bits_per_sample,
            );
            let d = img.pixel_data@;
            let nn = 256 * (cfg.near_lossless_error as int);
            let total = (img.width as int) * ((img.height as int) * (
            img.samples_per_pixel as int));
            &&& out.len() == d.len()
            &&& forall|i: int|
                0 <= i < total ==> #[trigger] spec_within_mod65536(
                    spec_sample16(d, i),
                    spec_sample16(out, i),
                    nn,
                )
            &&& forall|i: int|
                0 <= i < total && nn <= spec_sample16(d, i) && spec_sample16(d, i) + nn <= 65535
                    ==> -nn <= spec_sample16(d, i) - #[trigger] spec_sample16(out, i) <= nn
        }),
{
    let d = img.pixel_data@;
    let w = img.width as int;
    let rows = (img.height as int) * (img.samples_per_pixel as int);
    let near = cfg.near_lossless_error;
    let nn = 256 * (near as int);
    lemma_jls_frame(img, near);
    let sam = spec_samples_of(d);
    lemma_samples_of_in_range(d);
    let res16 = spec_jls16_residuals(sam, w, nn, w * rows);
    let payload = spec_jls_payload(img, near);
    assert(payload == spec_le_bytes(res16));
    assert(forall|i: int| 0 <= i < res16.len() ==> 0 <= #[trigger] res16[i] < 65536) by {
        assert forall|i: int| 0 <= i < res16.len() implies 0 <= #[trigger] res16[i] < 65536 by {
            lemma_residual16_in_range(sam, w, nn, i);
        }
    }
    lemma_samples_of_le_bytes(res16);
    assert(payload.len() == 2 * (w * rows));
    lemma_jls16_out_of_residuals(sam, w, nn, w * rows, w * rows);
    lemma_jls16_recon_close(sam, w, nn, w * rows);
    lemma_jls16_recon_shape(sam, w, nn, w * rows);
    let rec = spec_jls16_recon(sam, w, nn, w * rows);
    let out = spec_jls_decoded(
        spec_jls_codestream(img, near),
        img.width,
        img.height,
        img.samples_per_pixel,
        img.bits_per_sample,
    );
    assert(out =~= spec_le_bytes(rec));
    lemma_samples_of_le_bytes(rec);
    assert forall|i: int| 0 <= i < w * rows implies #[trigger] spec_within_mod65536(
        spec_sample16(d, i),
        spec_sample16(out, i),
        nn,
    ) by {
        assert(spec_sample16(out, i) == spec_samples_of(out)[i]);
        assert(spec_samples_of(out)[i] == rec[i]);
        assert(spec_sample16(d, i) == sam[i]);
        assert(spec_within_mod65536(sam[i], rec[i], nn));
    }
    assert forall|i: int|
        0 <= i < w * rows && nn <= spec_sample16(d, i) && spec_sample16(d, i) + nn
            <= 65535 implies -nn <= spec_sample16(d, i) - #[trigger] spec_sample16(out, i)
        <= nn by {
        assert(spec_sample16(out, i) == rec[i]);
        assert(spec_sample16(d, i) == sam[i]);
        lemma_within_mod65536_abs(sam[i], rec[i], nn);
    }
}

/// Marker invariants of the prediction container: every codestream starts
/// with the start-of-image marker and ends with the end marker.
pub proof fn lemma_jls_codestream_markers(img: ImageData, near: u8)
    ensures
        spec_jls_codestream(img, near).len() >= 4,
        spec_jls_codestream(img, near)[0] == 0xFF,
        spec_jls_codestream(img, near)[1] == 0xD8,
        spec_jls_codestream(img, near)[spec_jls_codestream(img, near).len() - 2] == 0xFF,
        spec_jls_codestream(img, near)[spec_jls_codestream(img, near).len() - 1] == 0xD9,
{
    lemma_sof_components_len(img.samples_per_pixel as int);
    lemma_sos_components_len(img.samples_per_pixel as int);
    let cs = spec_jls_codestream(img, near);
    let header = spec_jls_header(img, near);
    assert(header.len() >= 2);
    assert(cs[0] == header[0]);
    assert(cs[1] == header[1]);
}

/// The decoder's 16-bit output holds one in-range value per decoded sample.
pub proof fn lemma_jls16_out_shape(es: Seq<int>, w: int, nn: int, n: int)
    requires
        n >= 0,
    ensures
        spec_jls16_out(es, w, nn, n).len() == n,
        forall|i: int| 0 <= i < n ==> 0 <= #[trigger] spec_jls16_out(es, w, nn, n)[i] < 65536,
    decreases n,
{
    if n > 0 {
        lemma_jls16_out_shape(es, w, nn, n - 1);
    }
}

} // verus!
