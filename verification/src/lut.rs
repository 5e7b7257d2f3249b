//! The lookup cube: a dense table mapping every sampled RGB coordinate
//! at a resolution level to its remapped output color.
//!
//! At level `L` each channel takes `L * L` sample values, spread evenly
//! over `0..=255`; the cube holds one entry per coordinate, in a fixed
//! raster order (red fastest, then green, then blue), so generation is
//! reproducible and order-independent.

use vstd::prelude::*;

use crate::color::Color;
use crate::error::Error;
use crate::palette::Palette;
use crate::remap::{spec_remap, RemapperConfig};

verus! {

/// Samples per channel at a resolution level.
pub open spec fn spec_samples_per_channel(level: int) -> int {
    level * level
}

/// Total number of cube entries at a resolution level.
pub open spec fn spec_cube_total(level: int) -> int {
    let n = spec_samples_per_channel(level);
    n * n * n
}

/// The channel value of sample coordinate `i` out of `n`: coordinates
/// are spread evenly over `0..=255`, rounded down (a single coordinate
/// sits at zero).
pub open spec fn spec_channel_value(n: int, i: int) -> u8 {
    if n <= 1 {
        0
    } else {
        ((i * 255) / (n - 1)) as u8
    }
}

/// The source color of flat cube index `flat`: red varies fastest,
/// green next, blue slowest.
pub open spec fn spec_sample_color(level: int, flat: int) -> Color {
    let n = spec_samples_per_channel(level);
    Color {
        r: spec_channel_value(n, flat % n),
        g: spec_channel_value(n, (flat / n) % n),
        b: spec_channel_value(n, flat / (n * n)),
    }
}

/// A dense color lookup cube, written once by [`generate`] and
/// read-only afterward.
#[derive(Debug)]
pub struct LookupTable {
    level: u8,
    data: Vec<Color>,
}

impl View for LookupTable {
    type V = Seq<Color>;

    closed spec fn view(&self) -> Seq<Color> {
        self.data@
    }
}

impl LookupTable {
    /// The resolution level the table was built at.
    pub closed spec fn spec_level(&self) -> u8 {
        self.level
    }

    /// A table is well formed when its level is positive and it holds
    /// exactly one entry per cube coordinate.
    pub open spec fn wf(&self) -> bool {
        self.spec_level() >= 1 && self@.len() == spec_cube_total(self.spec_level() as int)
    }

    /// The resolution level.
    pub fn level(&self) -> (l: u8)
        ensures
            l == self.spec_level(),
    {
        self.level
    }

    /// Number of entries.
    pub fn len(&self) -> (n: usize)
        ensures
            n == self@.len(),
    {
        self.data.len()
    }

    /// The entry at flat index `flat`.
    pub fn get(&self, flat: usize) -> (c: Color)
        requires
            flat < self@.len(),
        ensures
            c == self@[flat as int],
    {
        self.data[flat]
    }
}

/// Generates the lookup cube for a palette, a validated configuration
/// and a resolution level: every cube coordinate is enumerated exactly
/// once, in raster order, and remapped. Fails with
/// [`Error::InvalidResolution`] exactly when the level is zero. (An
/// empty palette cannot reach this point: building a [`Palette`]
/// already refuses it.)
pub fn generate(pal: &Palette, cfg: &RemapperConfig, level: u8) -> (r: Result<LookupTable, Error>)
    requires
        pal.wf(),
        cfg.wf(),
        spec_cube_total(level as int) <= usize::MAX,
    ensures
        match r {
            Ok(lut) => {
                &&& level >= 1
                &&& lut.wf()
                &&& lut.spec_level() == level
                &&& lut@.len() == spec_cube_total(level as int)
                &&& forall|flat: int|
                    0 <= flat < lut@.len() ==> #[trigger] lut@[flat] == spec_remap(
                        *cfg,
                        pal@,
                        spec_sample_color(level as int, flat),
                        flat as u64,
                    )
            },
            Err(e) => e == Error::InvalidResolution && level == 0,
        },
{
    if level == 0 {
        return Err(Error::InvalidResolution);
    }
    proof {
        assert((level as int) * (level as int) <= 65025) by (nonlinear_arith)
            requires
                1 <= level <= 255,
        {
        }
    }
    let n64: u64 = (level as u64) * (level as u64);
    proof {
        assert(n64 * n64 * n64 == spec_cube_total(level as int) && n64 * n64 <= n64 * n64 * n64
            && n64 >= 1 && n64 * n64 * n64 <= 65025 * 65025 * 65025) by (nonlinear_arith)
            requires
                n64 == (level as int) * (level as int),
                1 <= level <= 255,
        {
        }
    }
    let total64: u64 = n64 * n64 * n64;
    let total: usize = total64 as usize;
    let n: usize = n64 as usize;
    proof {
        assert(n * n <= total);
    }

    let mut data: Vec<Color> = Vec::new();
    let mut flat: usize = 0;
    while flat < total
        invariant
            flat <= total,
            data@.len() == flat,
            forall|f: int|
                0 <= f < flat ==> #[trigger] data@[f] == spec_remap(
                    *cfg,
                    pal@,
                    spec_sample_color(level as int, f),
                    f as u64,
                ),
        decreases total - flat,
    {
        proof {
            assert((n as int) * (n as int) >= 1 && (flat as int) / ((n as int) * (n as int)) < n)
                by (nonlinear_arith)
                requires
                    n >= 1,
                    0 <= flat < total,
                    total == (n as int) * (n as int) * (n as int),
            {
            }
        }
        let ri: usize = flat % n;
        let gi: usize = (flat / n) % n;
        let bi: usize = flat / (n * n);
        let src = Color {
            r: channel_value(n, ri),
            g: channel_value(n, gi),
            b: channel_value(n, bi),
        };
        proof {
            assert(src == spec_sample_color(level as int, flat as int));
        }
        let out = cfg.remap(pal, &src, flat as u64);
        data.push(out);
        flat = flat + 1;
    }
    Ok(LookupTable { level, data })
}

/// The channel value of sample coordinate `i` out of `n`.
fn channel_value(n: usize, i: usize) -> (v: u8)
    requires
        n <= 65025,
        i < n || (n == 0 && i == 0),
    ensures
        v == spec_channel_value(n as int, i as int),
{
    if n <= 1 {
        0
    } else {
        proof {
            assert(i * 255 <= 65024 * 255 && (i * 255) / (n - 1) <= 255) by (nonlinear_arith)
                requires
                    i <= n - 1,
                    2 <= n <= 65025,
            {
            }
        }
        ((i * 255) / (n - 1)) as u8
    }
}

} // verus!
