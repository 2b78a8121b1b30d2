//! Byte-sequence helpers shared by the container encoders: big-endian and
//! little-endian field serialization, powers of two, and an integer log2.

use vstd::prelude::*;

verus! {

/// Big-endian bytes of a 16-bit value.
pub open spec fn spec_u16_be(x: u16) -> Seq<u8> {
    seq![(x / 256) as u8, (x % 256) as u8]
}

/// Big-endian bytes of a 32-bit value.
pub open spec fn spec_u32_be(x: u32) -> Seq<u8> {
    seq![
        (x / 0x1000000) as u8,
        ((x / 0x10000) % 256) as u8,
        ((x / 256) % 256) as u8,
        (x % 256) as u8,
    ]
}

/// Little-endian bytes of a 16-bit value.
pub open spec fn spec_u16_le(x: u16) -> Seq<u8> {
    seq![(x % 256) as u8, (x / 256) as u8]
}

/// The 16-bit little-endian sample starting at byte `2*i` of `d`.
pub open spec fn spec_sample16(d: Seq<u8>, i: int) -> int {
    d[2 * i] + 256 * d[2 * i + 1]
}

/// Modular addition at 8-bit width.
pub open spec fn spec_wadd8(a: u8, b: u8) -> u8 {
    ((a + b) % 256) as u8
}

/// Modular subtraction at 8-bit width.
pub open spec fn spec_wsub8(a: u8, b: u8) -> u8 {
    ((a - b) % 256) as u8
}

/// Adding back a modular difference recovers the minuend.
pub proof fn lemma_wadd_wsub8(a: u8, b: u8)
    ensures
        spec_wadd8(a, spec_wsub8(b, a)) == b,
{
    if b >= a {
        assert((b - a) % 256 == b - a);
    } else {
        assert((b - a) % 256 == b - a + 256);
    }
}

/// 2 to the power `k`.
pub open spec fn spec_pow2(k: nat) -> nat
    decreases k,
{
    if k == 0 {
        1
    } else {
        2 * spec_pow2((k - 1) as nat)
    }
}

/// Floor of the base-2 logarithm; 0 for inputs below 2.
pub open spec fn spec_log2_floor(x: nat) -> nat
    decreases x,
{
    if x < 2 {
        0
    } else {
        1 + spec_log2_floor(x / 2)
    }
}

/// The 16-bit little-endian samples held in a byte sequence; a trailing odd
/// byte is dropped.
pub open spec fn spec_samples_of(d: Seq<u8>) -> Seq<int> {
    Seq::new((d.len() / 2) as nat, |i: int| spec_sample16(d, i))
}

/// Little-endian serialization of a sequence of 16-bit sample values.
pub open spec fn spec_le_bytes(s: Seq<int>) -> Seq<u8> {
    Seq::new(
        2 * s.len(),
        |j: int|
            if j % 2 == 0 {
                (s[j / 2] % 256) as u8
            } else {
                (s[j / 2] / 256) as u8
            },
    )
}

/// Adding a 16-bit modular difference back onto the subtrahend recovers the
/// minuend.
pub proof fn lemma_mod_diff16(a: int, b: int)
    requires
        0 <= a < 65536,
        0 <= b < 65536,
    ensures
        (a + (b - a) % 65536) % 65536 == b,
{
    if b >= a {
        assert((b - a) % 65536 == b - a);
    } else {
        assert((b - a) % 65536 == b - a + 65536);
    }
}

/// All samples read out of a byte sequence are 16-bit values.
pub proof fn lemma_samples_of_in_range(d: Seq<u8>)
    ensures
        forall|i: int|
            0 <= i < spec_samples_of(d).len() ==> 0 <= #[trigger] spec_samples_of(d)[i] < 65536,
{
}

/// Serializing a sequence of 16-bit values and reading it back is the
/// identity.
pub proof fn lemma_samples_of_le_bytes(s: Seq<int>)
    requires
        forall|i: int| 0 <= i < s.len() ==> 0 <= #[trigger] s[i] < 65536,
    ensures
        spec_samples_of(spec_le_bytes(s)) == s,
{
    let b = spec_le_bytes(s);
    assert forall|i: int| 0 <= i < s.len() implies spec_sample16(b, i) == s[i] by {
        assert(b[2 * i] == (s[i] % 256) as u8);
        assert(b[2 * i + 1] == (s[i] / 256) as u8);
        assert(s[i] % 256 + 256 * (s[i] / 256) == s[i]);
    }
    assert(spec_samples_of(b) =~= s);
}

/// Serializing the samples read out of an even-length byte sequence gives
/// the bytes back.
pub proof fn lemma_le_bytes_of_samples_of(d: Seq<u8>, n: int)
    requires
        0 <= 2 * n <= d.len(),
    ensures
        spec_le_bytes(spec_samples_of(d).subrange(0, n)) == d.subrange(0, 2 * n),
{
    let s = spec_samples_of(d).subrange(0, n);
    let b = spec_le_bytes(s);
    assert forall|j: int| 0 <= j < 2 * n implies b[j] == d[j] by {
        let i = j / 2;
        assert(s[i] == d[2 * i] + 256 * d[2 * i + 1]);
        if j % 2 == 0 {
            assert(j == 2 * i);
            assert((d[2 * i] + 256 * d[2 * i + 1]) % 256 == d[2 * i]);
        } else {
            assert(j == 2 * i + 1);
            assert((d[2 * i] + 256 * d[2 * i + 1]) / 256 == d[2 * i + 1]);
        }
    }
    assert(b =~= d.subrange(0, 2 * n));
}

/// Serialization distributes over appending one sample.
pub proof fn lemma_le_bytes_push(s: Seq<int>, v: int)
    ensures
        spec_le_bytes(s.push(v)) == spec_le_bytes(s) + seq![(v % 256) as u8, (v / 256) as u8],
{
    assert(spec_le_bytes(s.push(v)) =~= spec_le_bytes(s) + seq![
        (v % 256) as u8,
        (v / 256) as u8,
    ]);
}

/// Append a 16-bit value in big-endian order.
pub fn push_u16_be(out: &mut Vec<u8>, x: u16)
    ensures
        final(out)@ == old(out)@ + spec_u16_be(x),
{
    out.push((x / 256) as u8);
    out.push((x % 256) as u8);
    proof {
        assert(out@ =~= old(out)@ + spec_u16_be(x));
    }
}

/// Append a 32-bit value in big-endian order.
pub fn push_u32_be(out: &mut Vec<u8>, x: u32)
    ensures
        final(out)@ == old(out)@ + spec_u32_be(x),
{
    out.push((x / 0x1000000) as u8);
    out.push(((x / 0x10000) % 256) as u8);
    out.push(((x / 256) % 256) as u8);
    out.push((x % 256) as u8);
    proof {
        assert(out@ =~= old(out)@ + spec_u32_be(x));
    }
}

/// Append a 16-bit value in little-endian order.
pub fn push_u16_le(out: &mut Vec<u8>, x: u16)
    ensures
        final(out)@ == old(out)@ + spec_u16_le(x),
{
    out.push((x % 256) as u8);
    out.push((x / 256) as u8);
    proof {
        assert(out@ =~= old(out)@ + spec_u16_le(x));
    }
}

/// Read the 16-bit little-endian sample starting at byte `2*i`.
pub fn read_sample16(d: &[u8], i: usize) -> (r: u16)
    requires
        2 * i + 1 < d@.len(),
    ensures
        r == spec_sample16(d@, i as int),
{
    let n = d.len();
    proof {
        assert(n == d@.len());
    }
    let lo = d[2 * i];
    let hi = d[2 * i + 1];
    lo as u16 + 256 * hi as u16
}

/// Small powers of two, unfolded.
pub proof fn lemma_pow2_values()
    ensures
        spec_pow2(7) == 0x80,
        spec_pow2(8) == 0x100,
        spec_pow2(15) == 0x8000,
        spec_pow2(16) == 0x10000,
        spec_pow2(32) == 0x1_0000_0000,
{
    reveal_with_fuel(spec_pow2, 33);
}

/// 2 to the power `k`, for exponents small enough that the result fits 16 bits.
pub fn pow2_u16(k: u16) -> (r: u16)
    requires
        k <= 15,
    ensures
        r == spec_pow2(k as nat),
        1 <= r <= 0x8000,
{
    let mut r: u16 = 1;
    let mut i: u16 = 0;
    while i < k
        invariant
            0 <= i <= k <= 15,
            r == spec_pow2(i as nat),
            1 <= r <= 0x8000,
        decreases k - i,
    {
        proof {
            lemma_pow2_le(i as nat + 1, 15);
            lemma_pow2_values();
        }
        r = 2 * r;
        i = i + 1;
    }
    r
}

/// The wide powers of two that bound the packing accumulators, unfolded.
#[verifier::rlimit(100)]
#[verifier::spinoff_prover]
pub proof fn lemma_pow2_wide_values()
    ensures
        spec_pow2(56) == 0x100_0000_0000_0000,
        spec_pow2(63) == 0x8000_0000_0000_0000,
        spec_pow2(64) == 0x1_0000_0000_0000_0000,
        spec_pow2(120) == 0x100_0000_0000_0000_0000_0000_0000_0000,
        spec_pow2(127) == 0x8000_0000_0000_0000_0000_0000_0000_0000,
        spec_pow2(128) == 0x1_0000_0000_0000_0000_0000_0000_0000_0000,
{
    reveal_with_fuel(spec_pow2, 129);
}

/// 2 to the power `k`, for exponents small enough that the result fits 64
/// bits.
pub fn pow2_u64(k: u32) -> (r: u64)
    requires
        k <= 63,
    ensures
        r == spec_pow2(k as nat),
        1 <= r,
{
    let mut r: u64 = 1;
    let mut i: u32 = 0;
    while i < k
        invariant
            0 <= i <= k <= 63,
            r == spec_pow2(i as nat),
            1 <= r,
        decreases k - i,
    {
        proof {
            lemma_pow2_le(i as nat + 1, 63);
            lemma_pow2_wide_values();
        }
        r = 2 * r;
        i = i + 1;
    }
    r
}

/// 2 to the power `k`, for exponents small enough that the result fits 128
/// bits.
pub fn pow2_u128(k: u32) -> (r: u128)
    requires
        k <= 127,
    ensures
        r == spec_pow2(k as nat),
        1 <= r,
{
    let mut r: u128 = 1;
    let mut i: u32 = 0;
    while i < k
        invariant
            0 <= i <= k <= 127,
            r == spec_pow2(i as nat),
            1 <= r,
        decreases k - i,
    {
        proof {
            lemma_pow2_le(i as nat + 1, 127);
            lemma_pow2_wide_values();
        }
        r = 2 * r;
        i = i + 1;
    }
    r
}

/// Powers of two multiply by adding exponents.
pub proof fn lemma_pow2_adds(a: nat, b: nat)
    ensures
        spec_pow2(a + b) == spec_pow2(a) * spec_pow2(b),
    decreases a,
{
    if a > 0 {
        lemma_pow2_adds((a - 1) as nat, b);
        assert(((a - 1) as nat) + b == (a + b - 1) as nat);
        assert(spec_pow2(a + b) == 2 * spec_pow2((a + b - 1) as nat));
        assert(spec_pow2(a + b) == spec_pow2(a) * spec_pow2(b)) by (nonlinear_arith)
            requires
                spec_pow2(a + b) == 2 * spec_pow2(((a - 1) as nat) + b),
                spec_pow2(((a - 1) as nat) + b) == spec_pow2((a - 1) as nat) * spec_pow2(b),
                spec_pow2(a) == 2 * spec_pow2((a - 1) as nat),
        ;
    } else {
        assert(a + b == b);
        assert(spec_pow2(a) == 1);
        assert(1 * spec_pow2(b) == spec_pow2(b)) by (nonlinear_arith);
    }
}

/// Monotone bound for powers of two.
pub proof fn lemma_pow2_le(k: nat, m: nat)
    requires
        k <= m,
    ensures
        spec_pow2(k) <= spec_pow2(m),
    decreases m,
{
    if k < m {
        lemma_pow2_le(k, (m - 1) as nat);
    }
}

/// Floor of the base-2 logarithm.
pub fn log2_floor_u32(x: u32) -> (r: u32)
    ensures
        r == spec_log2_floor(x as nat),
        r <= 31,
{
    let mut v: u32 = x;
    let mut r: u32 = 0;
    proof {
        lemma_log2_floor_bound(x as nat);
    }
    while v >= 2
        invariant
            r + spec_log2_floor(v as nat) == spec_log2_floor(x as nat),
            spec_log2_floor(x as nat) <= 31,
            r <= 31,
        decreases v,
    {
        v = v / 2;
        r = r + 1;
    }
    r
}

/// The base-2 logarithm of a 32-bit value is below 32.
pub proof fn lemma_log2_floor_bound(x: nat)
    requires
        x < 0x1_0000_0000,
    ensures
        spec_log2_floor(x) <= 31,
    decreases x,
{
    lemma_pow2_values();
    lemma_log2_floor_below(x, 32);
}

/// If `x < 2^m` then `log2(x) < m`.
pub proof fn lemma_log2_floor_below(x: nat, m: nat)
    requires
        m >= 1,
        x < spec_pow2(m),
    ensures
        spec_log2_floor(x) <= m - 1,
    decreases m,
{
    if x >= 2 {
        if m == 1 {
            assert(spec_pow2(1nat) == 2) by {
                reveal_with_fuel(spec_pow2, 2);
            }
        } else {
            lemma_log2_floor_below(x / 2, (m - 1) as nat);
        }
    }
}

} // verus!
