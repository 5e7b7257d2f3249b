//! Colors, Euclidean distance between them, and the luminosity blend.
//!
//! All channel arithmetic is integer arithmetic. Fractional parameters
//! are fixed-point: a luminosity blend factor is a numerator over
//! [`LUM_ONE`], so `0` keeps the source color entirely and [`LUM_ONE`]
//! fully replaces it with the computed candidate.

use vstd::prelude::*;

verus! {

/// Denominator of the fixed-point luminosity blend factor: a factor of
/// `LUM_ONE` means "replace the source color entirely".
pub const LUM_ONE: u16 = 256;

/// An 8-bit-per-channel RGB color.
#[derive(Clone, Copy, Debug, PartialEq, Eq, Structural)]
pub struct Color {
    pub r: u8,
    pub g: u8,
    pub b: u8,
}

/// Squared Euclidean distance between two colors in 3D channel space.
/// At most `3 * 255 * 255 == 195075`.
pub open spec fn spec_sq_dist(a: Color, b: Color) -> int {
    let dr = a.r - b.r;
    let dg = a.g - b.g;
    let db = a.b - b.b;
    dr * dr + dg * dg + db * db
}

/// One blended channel: `(s * (LUM_ONE - l) + c * l) / LUM_ONE`, the
/// fixed-point form of `s * (1 - luminosity) + c * luminosity`.
pub open spec fn spec_blend_channel(s: int, c: int, l: int) -> int {
    (s * (LUM_ONE - l) + c * l) / (LUM_ONE as int)
}

/// Luminosity blend of a source color toward a candidate color,
/// channel by channel.
pub open spec fn spec_blend(source: Color, candidate: Color, l: int) -> Color {
    Color {
        r: spec_blend_channel(source.r as int, candidate.r as int, l) as u8,
        g: spec_blend_channel(source.g as int, candidate.g as int, l) as u8,
        b: spec_blend_channel(source.b as int, candidate.b as int, l) as u8,
    }
}

impl Color {
    /// Builds a color from its three channels.
    pub fn new(r: u8, g: u8, b: u8) -> (c: Color)
        ensures
            c == (Color { r, g, b }),
    {
        Color { r, g, b }
    }

    /// Squared Euclidean distance from `self` to `other`.
    pub fn sq_dist(&self, other: &Color) -> (d: u32)
        ensures
            d == spec_sq_dist(*self, *other),
            d <= 195075,
    {
        let dr = if self.r >= other.r { (self.r - other.r) as u32 } else { (other.r - self.r) as u32 };
        let dg = if self.g >= other.g { (self.g - other.g) as u32 } else { (other.g - self.g) as u32 };
        let db = if self.b >= other.b { (self.b - other.b) as u32 } else { (other.b - self.b) as u32 };
        proof {
            assert(dr * dr + dg * dg + db * db <= 195075) by (nonlinear_arith)
                requires
                    dr <= 255 && dg <= 255 && db <= 255,
            {
            }
        }
        let d = dr * dr + dg * dg + db * db;
        proof {
            assert(d == spec_sq_dist(*self, *other) && d <= 195075) by (nonlinear_arith)
                requires
                    dr == if self.r >= other.r { self.r - other.r } else { other.r - self.r },
                    dg == if self.g >= other.g { self.g - other.g } else { other.g - self.g },
                    db == if self.b >= other.b { self.b - other.b } else { other.b - self.b },
                    d == dr * dr + dg * dg + db * db,
                    dr <= 255 && dg <= 255 && db <= 255,
            {
                assert((self.r - other.r) * (self.r - other.r) == dr * dr);
                assert((self.g - other.g) * (self.g - other.g) == dg * dg);
                assert((self.b - other.b) * (self.b - other.b) == db * db);
            }
        }
        d
    }

    /// Luminosity blend of `self` (the source) toward `candidate`.
    /// Requires `l <= LUM_ONE`; with `l == 0` the source is returned
    /// unchanged, with `l == LUM_ONE` the candidate is.
    pub fn blend(&self, candidate: &Color, l: u16) -> (out: Color)
        requires
            l <= LUM_ONE,
        ensures
            out == spec_blend(*self, *candidate, l as int),
    {
        let r = blend_channel(self.r, candidate.r, l);
        let g = blend_channel(self.g, candidate.g, l);
        let b = blend_channel(self.b, candidate.b, l);
        Color { r, g, b }
    }
}

/// One channel of the luminosity blend, in 32-bit arithmetic
/// (at most `255 * 256 == 65280` before the division).
fn blend_channel(s: u8, c: u8, l: u16) -> (out: u8)
    requires
        l <= LUM_ONE,
    ensures
        out == spec_blend_channel(s as int, c as int, l as int),
{
    proof {
        assert((s as int) * (256 - l) + (c as int) * (l as int) <= 65280) by (nonlinear_arith)
            requires
                s <= 255 && c <= 255 && l <= 256,
        {
        }
    }
    let num: u32 = (s as u32) * ((LUM_ONE - l) as u32) + (c as u32) * (l as u32);
    proof {
        assert(num / 256 <= 255) by (nonlinear_arith)
            requires
                num <= 65280,
        {
        }
    }
    let out = (num / (LUM_ONE as u32)) as u8;
    out
}

/// With a zero blend factor every channel keeps its source value.
pub proof fn lemma_blend_zero(source: Color, candidate: Color)
    ensures
        spec_blend(source, candidate, 0) == source,
{
    assert(source.r * (LUM_ONE - 0) + candidate.r * 0 == source.r * 256);
    assert(source.r * 256 / 256 == source.r as int) by (nonlinear_arith);
    assert(source.g * (LUM_ONE - 0) + candidate.g * 0 == source.g * 256);
    assert(source.g * 256 / 256 == source.g as int) by (nonlinear_arith);
    assert(source.b * (LUM_ONE - 0) + candidate.b * 0 == source.b * 256);
    assert(source.b * 256 / 256 == source.b as int) by (nonlinear_arith);
}

/// With a full blend factor every channel takes the candidate value.
pub proof fn lemma_blend_full(source: Color, candidate: Color)
    ensures
        spec_blend(source, candidate, LUM_ONE as int) == candidate,
{
    assert(source.r * (LUM_ONE - LUM_ONE) + candidate.r * (LUM_ONE as int) == candidate.r * 256);
    assert(candidate.r * 256 / 256 == candidate.r as int) by (nonlinear_arith);
    assert(source.g * (LUM_ONE - LUM_ONE) + candidate.g * (LUM_ONE as int) == candidate.g * 256);
    assert(candidate.g * 256 / 256 == candidate.g as int) by (nonlinear_arith);
    assert(source.b * (LUM_ONE - LUM_ONE) + candidate.b * (LUM_ONE as int) == candidate.b * 256);
    assert(candidate.b * 256 / 256 == candidate.b as int) by (nonlinear_arith);
}

/// Blending a color toward itself returns it unchanged, for every
/// blend factor in range.
pub proof fn lemma_blend_same(c: Color, l: int)
    requires
        0 <= l <= LUM_ONE,
    ensures
        spec_blend(c, c, l) == c,
{
    assert(c.r * (LUM_ONE - l) + c.r * l == c.r * 256) by (nonlinear_arith);
    assert(c.r * 256 / 256 == c.r as int) by (nonlinear_arith);
    assert(c.g * (LUM_ONE - l) + c.g * l == c.g * 256) by (nonlinear_arith);
    assert(c.g * 256 / 256 == c.g as int) by (nonlinear_arith);
    assert(c.b * (LUM_ONE - l) + c.b * l == c.b * 256) by (nonlinear_arith);
    assert(c.b * 256 / 256 == c.b as int) by (nonlinear_arith);
}

/// Squared distances are never negative.
pub proof fn lemma_sq_dist_nonneg(a: Color, b: Color)
    ensures
        spec_sq_dist(a, b) >= 0,
{
    assert((a.r - b.r) * (a.r - b.r) + (a.g - b.g) * (a.g - b.g) + (a.b - b.b) * (a.b - b.b) >= 0)
        by (nonlinear_arith);
}

/// A squared distance of zero means the two colors are equal.
pub proof fn lemma_sq_dist_zero(a: Color, b: Color)
    requires
        spec_sq_dist(a, b) == 0,
    ensures
        a == b,
{
    assert(a.r == b.r && a.g == b.g && a.b == b.b) by (nonlinear_arith)
        requires
            (a.r - b.r) * (a.r - b.r) + (a.g - b.g) * (a.g - b.g) + (a.b - b.b) * (a.b - b.b) == 0,
    {
    }
}

} // verus!
