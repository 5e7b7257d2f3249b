//! Integer numeric kernels shared by the remapping algorithms: a floor
//! square root, a fixed-point decaying exponential for the Gaussian
//! radial basis kernel, and a saturating power for inverse-distance
//! weighting.
//!
//! Fractional values are fixed-point with an explicit scale. Every
//! executable function returns exactly the value of its spec mirror, so
//! results are a pure function of the arguments.

use vstd::prelude::*;

verus! {

/// Scale of Q16 fixed-point values: `65536` stands for `1.0`.
pub const Q16: u32 = 65536;

/// `e^-1` in Q16 fixed point (`floor(65536 / e)`).
pub const EXP_NEG_ONE_Q16: u32 = 24109;

/// Scale of the inverse-distance weights of Shepard's method.
pub const SHEPARD_SCALE: u64 = 0x100_0000;

/// Floor of the square root of `n`, defined by counting upward.
pub open spec fn spec_sqrt_floor(n: nat) -> nat
    decreases n,
{
    if n == 0 {
        0
    } else {
        let s = spec_sqrt_floor((n - 1) as nat);
        if (s + 1) * (s + 1) <= n {
            s + 1
        } else {
            s
        }
    }
}

/// The floor square root brackets its argument:
/// `s * s <= n < (s + 1) * (s + 1)`.
pub proof fn lemma_sqrt_floor_bounds(n: nat)
    ensures
        spec_sqrt_floor(n) * spec_sqrt_floor(n) <= n,
        n < (spec_sqrt_floor(n) + 1) * (spec_sqrt_floor(n) + 1),
    decreases n,
{
    if n == 0 {
        assert(spec_sqrt_floor(0) == 0);
        assert(n < (spec_sqrt_floor(n) + 1) * (spec_sqrt_floor(n) + 1)) by (nonlinear_arith)
            requires
                n == 0,
                spec_sqrt_floor(n) == 0,
        {
        }
    } else {
        lemma_sqrt_floor_bounds((n - 1) as nat);
        let s = spec_sqrt_floor((n - 1) as nat);
        assert(s * s <= n - 1 && n - 1 < (s + 1) * (s + 1));
        if (s + 1) * (s + 1) <= n {
            assert(spec_sqrt_floor(n) == s + 1);
            assert(n < (s + 1 + 1) * (s + 1 + 1)) by (nonlinear_arith)
                requires
                    n >= 1,
                    n - 1 < (s + 1) * (s + 1),
                    (s + 1) * (s + 1) <= n,
            {
            }
            assert(spec_sqrt_floor(n) * spec_sqrt_floor(n) <= n);
            assert(n < (spec_sqrt_floor(n) + 1) * (spec_sqrt_floor(n) + 1));
        } else {
            assert(spec_sqrt_floor(n) == s);
            assert(n < (s + 1) * (s + 1));
            assert(spec_sqrt_floor(n) * spec_sqrt_floor(n) <= n);
            assert(n < (spec_sqrt_floor(n) + 1) * (spec_sqrt_floor(n) + 1));
        }
    }
}

/// Only one value brackets `n` between consecutive squares.
pub proof fn lemma_sqrt_unique(n: nat, a: nat, b: nat)
    requires
        a * a <= n < (a + 1) * (a + 1),
        b * b <= n < (b + 1) * (b + 1),
    ensures
        a == b,
{
    assert(a == b) by (nonlinear_arith)
        requires
            a * a <= n < (a + 1) * (a + 1),
            b * b <= n < (b + 1) * (b + 1),
    {
    }
}

/// Floor integer square root for squared color distances
/// (arguments up to `3 * 255 * 255`).
pub fn isqrt(n: u32) -> (r: u32)
    requires
        n <= 195075,
    ensures
        r == spec_sqrt_floor(n as nat),
        r <= 441,
{
    let mut r: u32 = 0;
    let mut next: u32 = 1;
    while next <= n
        invariant
            n <= 195075,
            r <= 441,
            next == (r + 1) * (r + 1),
            r * r <= n,
        decreases n - r,
    {
        proof {
            assert(r + 1 <= 441 && (r + 2) * (r + 2) <= 196249 && r + 1 <= n) by (nonlinear_arith)
                requires
                    (r + 1) * (r + 1) <= n <= 195075,
                    r <= 441,
            {
            }
        }
        r = r + 1;
        next = (r + 1) * (r + 1);
    }
    proof {
        lemma_sqrt_floor_bounds(n as nat);
        lemma_sqrt_unique(n as nat, r as nat, spec_sqrt_floor(n as nat));
    }
    r
}

/// `base ^ exp` over the naturals.
pub open spec fn spec_pow(base: nat, exp: nat) -> nat
    decreases exp,
{
    if exp == 0 {
        1
    } else {
        base * spec_pow(base, (exp - 1) as nat)
    }
}

/// Powers of a positive base are monotone in the exponent.
pub proof fn lemma_pow_mono(base: nat, i: nat, j: nat)
    requires
        base >= 1,
        i <= j,
    ensures
        spec_pow(base, i) <= spec_pow(base, j),
        spec_pow(base, i) >= 1,
    decreases j,
{
    if j == 0 {
    } else if i == j {
        lemma_pow_mono(base, (i - 1) as nat, (j - 1) as nat);
        assert(spec_pow(base, i) == base * spec_pow(base, (i - 1) as nat));
        assert(base * spec_pow(base, (i - 1) as nat) >= 1 * spec_pow(base, (i - 1) as nat))
            by (nonlinear_arith)
            requires
                base >= 1,
                spec_pow(base, (i - 1) as nat) >= 1,
        {
        }
    } else {
        lemma_pow_mono(base, i, (j - 1) as nat);
        assert(spec_pow(base, j) == base * spec_pow(base, (j - 1) as nat));
        assert(base * spec_pow(base, (j - 1) as nat) >= 1 * spec_pow(base, (j - 1) as nat))
            by (nonlinear_arith)
            requires
                base >= 1,
                spec_pow(base, (j - 1) as nat) >= 1,
        {
        }
    }
}

/// Inverse-distance weight of Shepard's method: `SHEPARD_SCALE / d^power`,
/// or zero once the power outgrows the scale.
pub open spec fn spec_shepard_weight(d: nat, power: nat) -> int {
    if spec_pow(d, power) > SHEPARD_SCALE {
        0
    } else {
        SHEPARD_SCALE as int / spec_pow(d, power) as int
    }
}

/// Computes `spec_shepard_weight(d, power)` for a positive distance.
pub fn shepard_weight(d: u32, power: u32) -> (w: u64)
    requires
        1 <= d <= 441,
    ensures
        w == spec_shepard_weight(d as nat, power as nat),
        w <= SHEPARD_SCALE,
{
    let mut acc: u64 = 1;
    let mut i: u32 = 0;
    while i < power
        invariant
            1 <= d <= 441,
            i <= power,
            acc == spec_pow(d as nat, i as nat),
            1 <= acc <= SHEPARD_SCALE,
        decreases power - i,
    {
        proof {
            assert(acc * d <= SHEPARD_SCALE * 441 && acc * d >= 1) by (nonlinear_arith)
                requires
                    1 <= acc <= SHEPARD_SCALE,
                    1 <= d <= 441,
            {
            }
        }
        let next: u64 = acc * (d as u64);
        i = i + 1;
        proof {
            assert(spec_pow(d as nat, i as nat) == d * spec_pow(d as nat, (i - 1) as nat));
            assert(next == spec_pow(d as nat, i as nat)) by (nonlinear_arith)
                requires
                    next == acc * d,
                    acc == spec_pow(d as nat, (i - 1) as nat),
                    spec_pow(d as nat, i as nat) == d * spec_pow(d as nat, (i - 1) as nat),
            {
            }
        }
        if next > SHEPARD_SCALE {
            proof {
                lemma_pow_mono(d as nat, i as nat, power as nat);
                assert(spec_pow(d as nat, power as nat) > SHEPARD_SCALE);
            }
            return 0;
        }
        acc = next;
    }
    proof {
        assert(SHEPARD_SCALE as int / acc as int <= SHEPARD_SCALE) by (nonlinear_arith)
            requires
                1 <= acc,
                SHEPARD_SCALE == 0x100_0000,
        {
        }
    }
    SHEPARD_SCALE / acc
}

/// Q16 value of `e^-n` for a whole number `n`, one factor of
/// [`EXP_NEG_ONE_Q16`] per unit.
pub open spec fn spec_exp_int_q16(n: nat) -> int
    decreases n,
{
    if n == 0 {
        Q16 as int
    } else {
        spec_exp_int_q16((n - 1) as nat) * EXP_NEG_ONE_Q16 / Q16 as int
    }
}

/// The whole-number factors never leave `[0, Q16]`.
pub proof fn lemma_exp_int_q16_bounds(n: nat)
    ensures
        0 <= spec_exp_int_q16(n) <= Q16,
    decreases n,
{
    if n == 0 {
    } else {
        lemma_exp_int_q16_bounds((n - 1) as nat);
        let p = spec_exp_int_q16((n - 1) as nat);
        assert(0 <= p * EXP_NEG_ONE_Q16 / Q16 as int <= Q16) by (nonlinear_arith)
            requires
                0 <= p <= Q16,
                Q16 == 65536,
                EXP_NEG_ONE_Q16 == 24109,
        {
        }
    }
}

/// Q16 value of `e^-f` for a Q16 fraction `f < Q16`, by a cubic Taylor
/// polynomial, clamped at zero.
pub open spec fn spec_exp_frac_q16(f: int) -> int {
    let f2 = f * f / 131072;
    let f3 = f2 * f / 196608;
    let t = Q16 - f + f2 - f3;
    if t < 0 {
        0
    } else {
        t
    }
}

/// The fraction factor never leaves `[0, Q16]`.
pub proof fn lemma_exp_frac_q16_bounds(f: int)
    requires
        0 <= f < Q16,
    ensures
        0 <= spec_exp_frac_q16(f) <= Q16,
{
    let f2 = f * f / 131072;
    let f3 = f2 * f / 196608;
    assert(0 <= f2 <= f && 0 <= f3) by (nonlinear_arith)
        requires
            0 <= f < 65536,
            f2 == f * f / 131072,
            f3 == f2 * f / 196608,
    {
    }
}

/// Q16 value of `e^-x` for a nonnegative Q16 argument `x`: zero past a
/// cutoff of 16, else the product of the whole and fractional factors.
pub open spec fn spec_exp_neg_q16(x: int) -> int {
    if x >= 16 * Q16 {
        0
    } else {
        spec_exp_int_q16((x / (Q16 as int)) as nat) * spec_exp_frac_q16(x % (Q16 as int))
            / (Q16 as int)
    }
}

/// The exponential factor never leaves `[0, Q16]`.
pub proof fn lemma_exp_neg_q16_bounds(x: int)
    requires
        x >= 0,
    ensures
        0 <= spec_exp_neg_q16(x) <= Q16,
{
    if x < 16 * Q16 {
        let n = (x / (Q16 as int)) as nat;
        let f = x % (Q16 as int);
        lemma_exp_int_q16_bounds(n);
        lemma_exp_frac_q16_bounds(f);
        assert(0 <= spec_exp_int_q16(n) * spec_exp_frac_q16(f) / (Q16 as int) <= Q16)
            by (nonlinear_arith)
            requires
                0 <= spec_exp_int_q16(n) <= Q16,
                0 <= spec_exp_frac_q16(f) <= Q16,
                Q16 == 65536,
        {
        }
    }
}

/// Computes `spec_exp_neg_q16(x)`.
pub fn exp_neg_q16(x: u64) -> (r: u32)
    ensures
        r == spec_exp_neg_q16(x as int),
        r <= Q16,
{
    if x >= 16 * (Q16 as u64) {
        return 0;
    }
    let n: u64 = x / (Q16 as u64);
    let f: u64 = x % (Q16 as u64);

    let mut acc: u32 = Q16;
    let mut i: u64 = 0;
    while i < n
        invariant
            n < 16,
            i <= n,
            acc == spec_exp_int_q16(i as nat),
            acc <= Q16,
        decreases n - i,
    {
        proof {
            assert(acc as int * EXP_NEG_ONE_Q16 <= 65536 * 24109
                && acc as int * EXP_NEG_ONE_Q16 / Q16 as int <= 65536) by (nonlinear_arith)
                requires
                    acc <= 65536,
                    EXP_NEG_ONE_Q16 == 24109,
                    Q16 == 65536,
            {
            }
        }
        acc = ((acc as u64) * (EXP_NEG_ONE_Q16 as u64) / (Q16 as u64)) as u32;
        i = i + 1;
        proof {
            lemma_exp_int_q16_bounds(i as nat);
        }
    }

    proof {
        assert(f * f <= 65535 * 65535) by (nonlinear_arith)
            requires
                0 <= f < 65536,
        {
        }
    }
    let f2: u64 = f * f / 131072;
    proof {
        assert(f2 <= f && f2 * f <= 65536 * 65536 * 65536) by (nonlinear_arith)
            requires
                0 <= f < 65536,
                f2 == f * f / 131072,
        {
        }
    }
    let f3: u64 = f2 * f / 196608;
    let t: i64 = (Q16 as i64) - (f as i64) + (f2 as i64) - (f3 as i64);
    let ef: u32 = if t < 0 { 0 } else { t as u32 };
    proof {
        lemma_exp_frac_q16_bounds(f as int);
        assert(ef == spec_exp_frac_q16(f as int));
        lemma_exp_int_q16_bounds(n as nat);
    }
    proof {
        assert(acc as int * ef <= 65536 * 65536 && acc as int * ef / 65536 <= 65536)
            by (nonlinear_arith)
            requires
                0 <= acc as int <= 65536,
                0 <= ef <= 65536,
        {
        }
    }
    let r: u32 = ((acc as u64) * (ef as u64) / (Q16 as u64)) as u32;
    r
}

} // verus!
