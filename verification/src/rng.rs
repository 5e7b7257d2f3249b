//! Deterministic pseudo-random stream for the stochastic sampling
//! remapper.
//!
//! Every cube sample owns a private stream derived from the run seed
//! and the sample's flat index, so results are bit-reproducible and
//! independent of the order in which samples are processed. The noise
//! is approximately Gaussian: a sum of twelve uniform 16-bit draws,
//! centered and scaled by the caller's fixed-point mean and deviation.

use vstd::prelude::*;

verus! {

/// 2^64, the modulus of the 64-bit stream arithmetic.
pub const TWO64: u128 = 0x1_0000_0000_0000_0000;

/// Stream increment (the golden-ratio constant of splitmix-style
/// generators).
pub const GOLDEN: u64 = 0x9E37_79B9_7F4A_7C15;

/// First mixing multiplier.
pub const MIX_A: u64 = 0xBF58_476D_1CE4_E5B9;

/// Second mixing multiplier.
pub const MIX_B: u64 = 0x94D0_49BB_1331_11EB;

/// Center of the sum of twelve uniform 16-bit draws.
pub const SUM12_MEAN: u32 = 393210;

/// `(a * b) mod 2^64`.
pub open spec fn spec_mul_mod64(a: u64, b: u64) -> u64 {
    ((a as int * b as int) % (TWO64 as int)) as u64
}

/// `(a + b) mod 2^64`.
pub open spec fn spec_add_mod64(a: u64, b: u64) -> u64 {
    ((a as int + b as int) % (TWO64 as int)) as u64
}

/// The state that follows `s` in its stream.
pub open spec fn spec_next_state(s: u64) -> u64 {
    spec_add_mod64(s, GOLDEN)
}

/// The output word mixed out of a state.
pub open spec fn spec_mix64(s: u64) -> u64 {
    let z1 = spec_mul_mod64(s ^ (s >> 30), MIX_A);
    let z2 = spec_mul_mod64(z1 ^ (z1 >> 27), MIX_B);
    z2 ^ (z2 >> 31)
}

/// Initial state of the stream owned by cube sample `index` under a
/// run seed.
pub open spec fn spec_stream_state(seed: u64, index: u64) -> u64 {
    seed ^ spec_mul_mod64(index, GOLDEN)
}

/// Sum of the four 16-bit lanes of a word; at most `4 * 65535`.
pub open spec fn spec_sum4(x: u64) -> int {
    (x & 0xFFFF) + ((x >> 16) & 0xFFFF) + ((x >> 32) & 0xFFFF) + ((x >> 48) & 0xFFFF)
}

/// Sum of twelve uniform 16-bit draws, and the state after them.
pub open spec fn spec_sum12(state: u64) -> (u64, int) {
    let s1 = spec_next_state(state);
    let s2 = spec_next_state(s1);
    let s3 = spec_next_state(s2);
    (s3, spec_sum4(spec_mix64(s1)) + spec_sum4(spec_mix64(s2)) + spec_sum4(spec_mix64(s3)))
}

/// One channel perturbed by noise `mean + std * z`, where `z` is the
/// centered sum of twelve uniform draws: fixed point throughout (the
/// channel and `mean` in Q8, `z` in Q16), clamped to the channel range
/// and rounded down.
pub open spec fn spec_perturb_channel(c: u8, mean: int, std: int, s12: int) -> u8 {
    let raw: int = ((c as int) * 256 + mean) * 65536 + std * (s12 - (SUM12_MEAN as int));
    let clamped: int = if raw < 0 {
        0
    } else if raw > 65280 * 65536 {
        65280 * 65536int
    } else {
        raw
    };
    (clamped / 16777216) as u8
}

/// A per-sample deterministic pseudo-random stream.
pub struct SampleRng {
    state: u64,
}

impl View for SampleRng {
    type V = u64;

    closed spec fn view(&self) -> u64 {
        self.state
    }
}

/// `(a * b) mod 2^64` in 128-bit arithmetic.
fn mul_mod64(a: u64, b: u64) -> (r: u64)
    ensures
        r == spec_mul_mod64(a, b),
{
    proof {
        assert((a as int) * (b as int) < (TWO64 as int) * (TWO64 as int)) by (nonlinear_arith)
            requires
                (a as int) < (TWO64 as int),
                (b as int) < (TWO64 as int),
        {
        }
    }
    let p: u128 = (a as u128) * (b as u128);
    (p % TWO64) as u64
}

impl SampleRng {
    /// Opens the stream of cube sample `index` under `seed`.
    pub fn new(seed: u64, index: u64) -> (rng: SampleRng)
        ensures
            rng@ == spec_stream_state(seed, index),
    {
        SampleRng { state: seed ^ mul_mod64(index, GOLDEN) }
    }

    /// Advances the stream and mixes one output word out of it.
    pub fn next_u64(&mut self) -> (r: u64)
        ensures
            final(self)@ == spec_next_state(old(self)@),
            r == spec_mix64(final(self)@),
    {
        let s: u64 = ((self.state as u128 + GOLDEN as u128) % TWO64) as u64;
        self.state = s;
        let z1: u64 = mul_mod64(s ^ (s >> 30), MIX_A);
        let z2: u64 = mul_mod64(z1 ^ (z1 >> 27), MIX_B);
        z2 ^ (z2 >> 31)
    }

    /// Sum of twelve uniform 16-bit draws.
    pub fn sum12(&mut self) -> (r: u32)
        ensures
            final(self)@ == spec_sum12(old(self)@).0,
            r == spec_sum12(old(self)@).1,
            r <= 786420,
    {
        let a = self.next_u64();
        let b = self.next_u64();
        let c = self.next_u64();
        let sa = sum4(a);
        let sb = sum4(b);
        let sc = sum4(c);
        sa + sb + sc
    }
}

/// Adds the four 16-bit lanes of a word.
fn sum4(x: u64) -> (r: u32)
    ensures
        r == spec_sum4(x),
        r <= 262140,
{
    proof {
        assert((x & 0xFFFF) <= 0xFFFF && ((x >> 16) & 0xFFFF) <= 0xFFFF && ((x >> 32) & 0xFFFF)
            <= 0xFFFF && ((x >> 48) & 0xFFFF) <= 0xFFFF) by (bit_vector);
    }
    let l0 = (x & 0xFFFF) as u32;
    let l1 = ((x >> 16) & 0xFFFF) as u32;
    let l2 = ((x >> 32) & 0xFFFF) as u32;
    let l3 = ((x >> 48) & 0xFFFF) as u32;
    l0 + l1 + l2 + l3
}

/// Computes `spec_perturb_channel` on one channel.
pub fn perturb_channel(c: u8, mean: i32, std: u32, s12: u32) -> (r: u8)
    requires
        s12 <= 786420,
    ensures
        r == spec_perturb_channel(c, mean as int, std as int, s12 as int),
{
    let base: i64 = (c as i64) * 256 + (mean as i64);
    proof {
        assert(base * 65536 <= 0x1_0000_0000_0000 && base * 65536 >= -0x1_0000_0000_0000)
            by (nonlinear_arith)
            requires
                -0x8000_0000 <= base <= 0x8000_0000 + 65280,
        {
        }
        assert((std as int) * ((s12 as int) - SUM12_MEAN) <= 0x2000_0000_0000_0000
            && (std as int) * ((s12 as int) - SUM12_MEAN) >= -0x2000_0000_0000_0000)
            by (nonlinear_arith)
            requires
                0 <= std <= 0xFFFF_FFFF,
                0 <= s12 <= 786420,
                SUM12_MEAN == 393210,
        {
        }
    }
    let noise: i64 = (std as i64) * ((s12 as i64) - (SUM12_MEAN as i64));
    let raw: i64 = base * 65536 + noise;
    let clamped: i64 = if raw < 0 {
        0
    } else if raw > 65280 * 65536 {
        65280 * 65536
    } else {
        raw
    };
    let r = ((clamped as u64) / 16777216) as u8;
    proof {
        assert(clamped as u64 / 16777216 <= 255) by (nonlinear_arith)
            requires
                0 <= clamped as u64 <= 65280 * 65536,
        {
        }
    }
    r
}

} // verus!
