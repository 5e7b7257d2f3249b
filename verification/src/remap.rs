//! The five remapping algorithms behind one contract: given a source
//! color, produce a target color drawn toward the palette.
//!
//! Every variant finishes with the shared luminosity blend. The
//! weighted variants pick the k nearest palette entries and average
//! them under their kernel's weights; when every weight rounds to zero
//! the nearest entry stands in. Distances are Euclidean in RGB space;
//! fractional weights are fixed point.

use vstd::prelude::*;

use crate::color::{spec_blend, spec_sq_dist, Color, LUM_ONE};
use crate::error::Error;
use crate::generation::{Algorithm, Properties, GENERATION_SEED};
use crate::math::{
    exp_neg_q16, isqrt, shepard_weight, spec_exp_neg_q16, spec_shepard_weight, spec_sqrt_floor,
};
use crate::palette::{
    lemma_nearest, lemma_select_nearest_in_bounds, lemma_select_nearest_len, spec_k_nearest,
    spec_nearest, Palette, PALETTE_MAX,
};
use crate::rng::{
    perturb_channel, spec_perturb_channel, spec_stream_state, spec_sum12, SampleRng,
};

verus! {

/// Largest accepted iteration count of the sampling variant; keeps the
/// channel sums inside 64-bit arithmetic.
pub const ITER_MAX: usize = 0x1000_0000;

/// Upper bound on every kernel weight.
pub const WEIGHT_CAP: u64 = 0x100_0000;

/// A validated remapper configuration: the algorithm tag plus exactly
/// the parameters that variant reads.
#[derive(Clone, Copy, Debug, PartialEq, Eq, Structural)]
pub enum RemapperConfig {
    /// Snap to the single nearest palette entry.
    NearestNeighbor { luminosity: u16 },
    /// Linear radial falloff over the k nearest entries.
    LinearRbf { nearest: usize, luminosity: u16 },
    /// Gaussian kernel of Q8 width `shape` over the k nearest entries.
    GaussianRbf { shape: u32, nearest: usize, luminosity: u16 },
    /// Inverse-distance weighting with whole exponent `power`.
    ShepardsMethod { power: u32, nearest: usize, luminosity: u16 },
    /// Averaged nearest neighbors of noise-perturbed copies.
    GaussianSampling { mean: i32, std: u32, iterations: usize, seed: u64, luminosity: u16 },
}

/// The configuration a property record denotes.
pub open spec fn spec_config_of(p: Properties) -> RemapperConfig {
    match p.algorithm {
        Algorithm::NearestNeighbor => RemapperConfig::NearestNeighbor {
            luminosity: p.luminosity,
        },
        Algorithm::LinearRBF => RemapperConfig::LinearRbf {
            nearest: p.nearest,
            luminosity: p.luminosity,
        },
        Algorithm::GaussianRBF => RemapperConfig::GaussianRbf {
            shape: p.shape,
            nearest: p.nearest,
            luminosity: p.luminosity,
        },
        Algorithm::ShepardsMethod => RemapperConfig::ShepardsMethod {
            power: p.power,
            nearest: p.nearest,
            luminosity: p.luminosity,
        },
        Algorithm::GaussianSampling => RemapperConfig::GaussianSampling {
            mean: p.mean,
            std: p.std,
            iterations: p.iterations,
            seed: GENERATION_SEED,
            luminosity: p.luminosity,
        },
    }
}

/// `nearest` clamped to the palette size.
pub open spec fn spec_clamped_k(nearest: int, len: int) -> int {
    if nearest > len {
        len
    } else {
        nearest
    }
}

/// Euclidean distance between two colors, rounded down.
pub open spec fn spec_dist(a: Color, b: Color) -> int {
    spec_sqrt_floor(spec_sq_dist(a, b) as nat) as int
}

/// Largest distance from `c` to the first `n` selected entries.
pub open spec fn spec_max_dist(pal: Seq<Color>, c: Color, idxs: Seq<int>, n: int) -> int
    decreases n,
{
    if n <= 0 {
        0
    } else {
        let p = spec_max_dist(pal, c, idxs, n - 1);
        let d = spec_dist(pal[idxs[n - 1]], c);
        if d > p {
            d
        } else {
            p
        }
    }
}

/// The maximum dominates each selected distance and stays in range.
pub proof fn lemma_max_dist(pal: Seq<Color>, c: Color, idxs: Seq<int>, n: int)
    ensures
        0 <= spec_max_dist(pal, c, idxs, n),
        forall|t: int|
            0 <= t < n ==> #[trigger] spec_dist(pal[idxs[t]], c) <= spec_max_dist(pal, c, idxs, n),
    decreases n,
{
    if n > 0 {
        lemma_max_dist(pal, c, idxs, n - 1);
    }
}

/// Linear falloff weights: `max_distance - distance` for each selected
/// entry (the common `1/max_distance` factor cancels in the average).
pub open spec fn spec_linear_ws(pal: Seq<Color>, c: Color, idxs: Seq<int>) -> Seq<int> {
    let dmax = spec_max_dist(pal, c, idxs, idxs.len() as int);
    Seq::new(idxs.len(), |j: int| dmax - spec_dist(pal[idxs[j]], c))
}

/// Gaussian kernel weight in Q16: `e^(-d2 / (2 * shape^2))` with the Q8
/// `shape` folded into the fixed-point argument.
pub open spec fn spec_gauss_weight(shape: int, d2: int) -> int {
    spec_exp_neg_q16((d2 * 0x8000_0000) / (shape * shape))
}

/// Gaussian kernel weights of the selected entries.
pub open spec fn spec_gauss_ws(pal: Seq<Color>, c: Color, idxs: Seq<int>, shape: int) -> Seq<int> {
    Seq::new(idxs.len(), |j: int| spec_gauss_weight(shape, spec_sq_dist(pal[idxs[j]], c)))
}

/// Inverse-distance weights of the selected entries.
pub open spec fn spec_shepard_ws(pal: Seq<Color>, c: Color, idxs: Seq<int>, power: int) -> Seq<
    int,
> {
    Seq::new(
        idxs.len(),
        |j: int| spec_shepard_weight(spec_dist(pal[idxs[j]], c) as nat, power as nat),
    )
}

/// Weighted channel sums and total weight over the first `n` selected
/// entries: `(sum w*r, sum w*g, sum w*b, sum w)`.
pub open spec fn spec_wacc(pal: Seq<Color>, idxs: Seq<int>, ws: Seq<int>, n: int) -> (
    int,
    int,
    int,
    int,
)
    decreases n,
{
    if n <= 0 {
        (0, 0, 0, 0)
    } else {
        let p = spec_wacc(pal, idxs, ws, n - 1);
        let col = pal[idxs[n - 1]];
        let w = ws[n - 1];
        (p.0 + w * col.r, p.1 + w * col.g, p.2 + w * col.b, p.3 + w)
    }
}

/// Normalized weighted average of the selected entries, or the nearest
/// entry when the total weight is zero.
pub open spec fn spec_avg_or_nearest(
    pal: Seq<Color>,
    c: Color,
    idxs: Seq<int>,
    ws: Seq<int>,
) -> Color {
    let acc = spec_wacc(pal, idxs, ws, idxs.len() as int);
    if acc.3 <= 0 {
        pal[spec_nearest(pal, c)]
    } else {
        Color { r: (acc.0 / acc.3) as u8, g: (acc.1 / acc.3) as u8, b: (acc.2 / acc.3) as u8 }
    }
}

/// Candidate of the linear radial basis variant.
pub open spec fn spec_linear_candidate(pal: Seq<Color>, c: Color, k: int) -> Color {
    let idxs = spec_k_nearest(pal, c, k);
    spec_avg_or_nearest(pal, c, idxs, spec_linear_ws(pal, c, idxs))
}

/// Candidate of the Gaussian radial basis variant.
pub open spec fn spec_gauss_candidate(pal: Seq<Color>, c: Color, k: int, shape: int) -> Color {
    let idxs = spec_k_nearest(pal, c, k);
    spec_avg_or_nearest(pal, c, idxs, spec_gauss_ws(pal, c, idxs, shape))
}

/// Position of the first selected entry at distance zero, `-1` if none.
pub open spec fn spec_first_zero(pal: Seq<Color>, c: Color, idxs: Seq<int>, i: int) -> int
    decreases idxs.len() - i,
{
    if i < 0 || i >= idxs.len() {
        -1
    } else if spec_sq_dist(pal[idxs[i]], c) == 0 {
        i
    } else {
        spec_first_zero(pal, c, idxs, i + 1)
    }
}

/// Candidate of Shepard's method: an exact palette match is returned
/// directly, else the inverse-distance weighted average.
pub open spec fn spec_shepard_candidate(pal: Seq<Color>, c: Color, k: int, power: int) -> Color {
    let idxs = spec_k_nearest(pal, c, k);
    let fz = spec_first_zero(pal, c, idxs, 0);
    if fz >= 0 {
        pal[idxs[fz]]
    } else {
        spec_avg_or_nearest(pal, c, idxs, spec_shepard_ws(pal, c, idxs, power))
    }
}

/// One noise-perturbed copy of `c` and the stream state after it.
pub open spec fn spec_perturb_color(c: Color, mean: int, std: int, state: u64) -> (u64, Color) {
    let a = spec_sum12(state);
    let b = spec_sum12(a.0);
    let d = spec_sum12(b.0);
    (
        d.0,
        Color {
            r: spec_perturb_channel(c.r, mean, std, a.1),
            g: spec_perturb_channel(c.g, mean, std, b.1),
            b: spec_perturb_channel(c.b, mean, std, d.1),
        },
    )
}

/// Channel sums of the nearest palette entries of `n` perturbed copies.
pub open spec fn spec_sampling_sums(
    pal: Seq<Color>,
    c: Color,
    mean: int,
    std: int,
    state: u64,
    n: nat,
) -> (int, int, int)
    decreases n,
{
    if n == 0 {
        (0, 0, 0)
    } else {
        let step = spec_perturb_color(c, mean, std, state);
        let hit = pal[spec_nearest(pal, step.1)];
        let rest = spec_sampling_sums(pal, c, mean, std, step.0, (n - 1) as nat);
        (hit.r + rest.0, hit.g + rest.1, hit.b + rest.2)
    }
}

/// Candidate of the sampling variant: the channel-wise average of the
/// nearest entries of `iterations` perturbed copies.
pub open spec fn spec_sampling_candidate(
    pal: Seq<Color>,
    c: Color,
    mean: int,
    std: int,
    iterations: int,
    state: u64,
) -> Color {
    let sums = spec_sampling_sums(pal, c, mean, std, state, iterations as nat);
    Color {
        r: (sums.0 / iterations) as u8,
        g: (sums.1 / iterations) as u8,
        b: (sums.2 / iterations) as u8,
    }
}

/// What one remap call returns: the variant's candidate, blended toward
/// the source by the luminosity factor. `sample` is the flat cube index
/// that seeds the sampling variant's private stream.
pub open spec fn spec_remap(cfg: RemapperConfig, pal: Seq<Color>, c: Color, sample: u64) -> Color {
    match cfg {
        RemapperConfig::NearestNeighbor { luminosity } => spec_blend(
            c,
            pal[spec_nearest(pal, c)],
            luminosity as int,
        ),
        RemapperConfig::LinearRbf { nearest, luminosity } => spec_blend(
            c,
            spec_linear_candidate(pal, c, spec_clamped_k(nearest as int, pal.len() as int)),
            luminosity as int,
        ),
        RemapperConfig::GaussianRbf { shape, nearest, luminosity } => spec_blend(
            c,
            spec_gauss_candidate(
                pal,
                c,
                spec_clamped_k(nearest as int, pal.len() as int),
                shape as int,
            ),
            luminosity as int,
        ),
        RemapperConfig::ShepardsMethod { power, nearest, luminosity } => spec_blend(
            c,
            spec_shepard_candidate(
                pal,
                c,
                spec_clamped_k(nearest as int, pal.len() as int),
                power as int,
            ),
            luminosity as int,
        ),
        RemapperConfig::GaussianSampling { mean, std, iterations, seed, luminosity } => spec_blend(
            c,
            spec_sampling_candidate(
                pal,
                c,
                mean as int,
                std as int,
                iterations as int,
                spec_stream_state(seed, sample),
            ),
            luminosity as int,
        ),
    }
}

impl RemapperConfig {
    /// Parameter validity: the blend factor is a fraction, kernel width
    /// and exponent are positive, at least one neighbor is asked for,
    /// and the iteration count is positive and bounded.
    pub open spec fn wf(&self) -> bool {
        match *self {
            RemapperConfig::NearestNeighbor { luminosity } => luminosity <= LUM_ONE,
            RemapperConfig::LinearRbf { nearest, luminosity } => nearest >= 1 && luminosity
                <= LUM_ONE,
            RemapperConfig::GaussianRbf { shape, nearest, luminosity } => shape >= 1 && nearest
                >= 1 && luminosity <= LUM_ONE,
            RemapperConfig::ShepardsMethod { power, nearest, luminosity } => power >= 1 && nearest
                >= 1 && luminosity <= LUM_ONE,
            RemapperConfig::GaussianSampling { mean, std, iterations, seed, luminosity } => 1
                <= iterations <= ITER_MAX && luminosity <= LUM_ONE,
        }
    }

    /// Validates a property record and builds the configuration it
    /// denotes. Fails with [`Error::InvalidParameter`] exactly when a
    /// parameter of the chosen variant is out of range.
    pub fn new(p: &Properties) -> (r: Result<RemapperConfig, Error>)
        ensures
            match r {
                Ok(cfg) => cfg == spec_config_of(*p) && cfg.wf(),
                Err(e) => e == Error::InvalidParameter && !spec_config_of(*p).wf(),
            },
    {
        let cfg = match p.algorithm {
            Algorithm::NearestNeighbor => RemapperConfig::NearestNeighbor {
                luminosity: p.luminosity,
            },
            Algorithm::LinearRBF => RemapperConfig::LinearRbf {
                nearest: p.nearest,
                luminosity: p.luminosity,
            },
            Algorithm::GaussianRBF => RemapperConfig::GaussianRbf {
                shape: p.shape,
                nearest: p.nearest,
                luminosity: p.luminosity,
            },
            Algorithm::ShepardsMethod => RemapperConfig::ShepardsMethod {
                power: p.power,
                nearest: p.nearest,
                luminosity: p.luminosity,
            },
            Algorithm::GaussianSampling => RemapperConfig::GaussianSampling {
                mean: p.mean,
                std: p.std,
                iterations: p.iterations,
                seed: GENERATION_SEED,
                luminosity: p.luminosity,
            },
        };
        let ok = match cfg {
            RemapperConfig::NearestNeighbor { luminosity } => luminosity <= LUM_ONE,
            RemapperConfig::LinearRbf { nearest, luminosity } => nearest >= 1 && luminosity
                <= LUM_ONE,
            RemapperConfig::GaussianRbf { shape, nearest, luminosity } => shape >= 1 && nearest
                >= 1 && luminosity <= LUM_ONE,
            RemapperConfig::ShepardsMethod { power, nearest, luminosity } => power >= 1 && nearest
                >= 1 && luminosity <= LUM_ONE,
            RemapperConfig::GaussianSampling { mean: _, std: _, iterations, seed: _, luminosity } =>
                1 <= iterations && iterations <= ITER_MAX && luminosity <= LUM_ONE,
        };
        if ok {
            Ok(cfg)
        } else {
            Err(Error::InvalidParameter)
        }
    }

    /// Remaps one source color. `sample` is the flat index of the cube
    /// sample being computed; only the sampling variant reads it.
    pub fn remap(&self, pal: &Palette, c: &Color, sample: u64) -> (out: Color)
        requires
            self.wf(),
            pal.wf(),
        ensures
            out == spec_remap(*self, pal@, *c, sample),
    {
        match *self {
            RemapperConfig::NearestNeighbor { luminosity } => {
                let ni = pal.nearest(c);
                let cand = pal.get(ni);
                c.blend(&cand, luminosity)
            },
            RemapperConfig::LinearRbf { nearest, luminosity } => {
                let k = clamp_k(nearest, pal.len());
                let cand = candidate_linear(pal, c, k);
                c.blend(&cand, luminosity)
            },
            RemapperConfig::GaussianRbf { shape, nearest, luminosity } => {
                let k = clamp_k(nearest, pal.len());
                let cand = candidate_gauss(pal, c, k, shape);
                c.blend(&cand, luminosity)
            },
            RemapperConfig::ShepardsMethod { power, nearest, luminosity } => {
                let k = clamp_k(nearest, pal.len());
                let cand = candidate_shepard(pal, c, k, power);
                c.blend(&cand, luminosity)
            },
            RemapperConfig::GaussianSampling { mean, std, iterations, seed, luminosity } => {
                let cand = candidate_sampling(pal, c, mean, std, iterations, seed, sample);
                c.blend(&cand, luminosity)
            },
        }
    }
}

/// Clamps the requested neighbor count to the palette size.
fn clamp_k(nearest: usize, len: usize) -> (k: usize)
    ensures
        k == spec_clamped_k(nearest as int, len as int),
        k <= len,
{
    if nearest > len {
        len
    } else {
        nearest
    }
}

/// Normalized weighted average of the selected entries, falling back to
/// the nearest entry when every weight is zero.
fn avg_or_nearest(
    pal: &Palette,
    c: &Color,
    idxs: &Vec<usize>,
    ws: &Vec<u64>,
    Ghost(gidxs): Ghost<Seq<int>>,
    Ghost(gws): Ghost<Seq<int>>,
) -> (out: Color)
    requires
        pal.wf(),
        idxs@.len() == gidxs.len(),
        ws@.len() == gidxs.len(),
        gws.len() == gidxs.len(),
        gidxs.len() <= pal@.len(),
        forall|t: int| 0 <= t < gidxs.len() ==> #[trigger] idxs@[t] == gidxs[t],
        forall|t: int| 0 <= t < gidxs.len() ==> 0 <= #[trigger] gidxs[t] < pal@.len(),
        forall|t: int| 0 <= t < gidxs.len() ==> #[trigger] ws@[t] == gws[t],
        forall|t: int| 0 <= t < gidxs.len() ==> 0 <= #[trigger] gws[t] <= WEIGHT_CAP,
    ensures
        out == spec_avg_or_nearest(pal@, *c, gidxs, gws),
{
    let n = idxs.len();
    let mut sr: u64 = 0;
    let mut sg: u64 = 0;
    let mut sb: u64 = 0;
    let mut sw: u64 = 0;
    let mut j: usize = 0;
    while j < n
        invariant
            j <= n,
            n == gidxs.len(),
            pal.wf(),
            idxs@.len() == n,
            ws@.len() == n,
            gws.len() == n,
            gidxs.len() <= pal@.len(),
            forall|t: int| 0 <= t < n ==> #[trigger] idxs@[t] == gidxs[t],
            forall|t: int| 0 <= t < n ==> 0 <= #[trigger] gidxs[t] < pal@.len(),
            forall|t: int| 0 <= t < n ==> #[trigger] ws@[t] == gws[t],
            forall|t: int| 0 <= t < n ==> 0 <= #[trigger] gws[t] <= WEIGHT_CAP,
            sr == spec_wacc(pal@, gidxs, gws, j as int).0,
            sg == spec_wacc(pal@, gidxs, gws, j as int).1,
            sb == spec_wacc(pal@, gidxs, gws, j as int).2,
            sw == spec_wacc(pal@, gidxs, gws, j as int).3,
            sw <= (j as int) * (WEIGHT_CAP as int),
            sr <= 255 * sw,
            sg <= 255 * sw,
            sb <= 255 * sw,
        decreases n - j,
    {
        let w: u64 = ws[j];
        let col = pal.get(idxs[j]);
        proof {
            assert(sw + w <= ((j + 1) as int) * (WEIGHT_CAP as int) <= 0x1000000 * 0x1000000)
                by (nonlinear_arith)
                requires
                    sw <= (j as int) * (WEIGHT_CAP as int),
                    0 <= w <= WEIGHT_CAP,
                    WEIGHT_CAP == 0x100_0000,
                    j + 1 <= 0x100_0000,
            {
            }
            assert(w * col.r <= WEIGHT_CAP * 255 && w * col.g <= WEIGHT_CAP * 255 && w * col.b
                <= WEIGHT_CAP * 255 && w * col.r >= 0 && w * col.g >= 0 && w * col.b >= 0)
                by (nonlinear_arith)
                requires
                    0 <= w <= WEIGHT_CAP,
                    0 <= col.r <= 255,
                    0 <= col.g <= 255,
                    0 <= col.b <= 255,
            {
            }
            assert(sr + w * col.r <= 255 * (sw + w) && sg + w * col.g <= 255 * (sw + w) && sb + w
                * col.b <= 255 * (sw + w)) by (nonlinear_arith)
                requires
                    sr <= 255 * sw,
                    sg <= 255 * sw,
                    sb <= 255 * sw,
                    0 <= w,
                    0 <= col.r <= 255,
                    0 <= col.g <= 255,
                    0 <= col.b <= 255,
            {
            }
            assert(255 * (sw + w) <= 255 * (0x1000000 * 0x1000000)) by (nonlinear_arith)
                requires
                    0 <= sw + w <= 0x1000000 * 0x1000000,
            {
            }
        }
        sr = sr + w * (col.r as u64);
        sg = sg + w * (col.g as u64);
        sb = sb + w * (col.b as u64);
        sw = sw + w;
        j = j + 1;
    }
    if sw == 0 {
        let ni = pal.nearest(c);
        proof {
            assert(spec_wacc(pal@, gidxs, gws, gidxs.len() as int).3 == 0);
        }
        pal.get(ni)
    } else {
        proof {
            assert(sr / sw <= 255 && sg / sw <= 255 && sb / sw <= 255) by (nonlinear_arith)
                requires
                    1 <= sw,
                    sr <= 255 * sw,
                    sg <= 255 * sw,
                    sb <= 255 * sw,
                    0 <= sr,
                    0 <= sg,
                    0 <= sb,
            {
            }
        }
        Color { r: (sr / sw) as u8, g: (sg / sw) as u8, b: (sb / sw) as u8 }
    }
}

/// Candidate of the linear radial basis variant.
fn candidate_linear(pal: &Palette, c: &Color, k: usize) -> (out: Color)
    requires
        pal.wf(),
        k <= pal@.len(),
    ensures
        out == spec_linear_candidate(pal@, *c, k as int),
{
    let idxs = pal.k_nearest(c, k);
    let ghost gidxs = spec_k_nearest(pal@, *c, k as int);
    proof {
        lemma_select_nearest_in_bounds(pal@, *c, Seq::new(pal@.len(), |i: int| false), k as int);
        lemma_select_nearest_len(pal@, *c, Seq::new(pal@.len(), |i: int| false), k as int);
    }
    let n = idxs.len();

    let mut dists: Vec<u32> = Vec::new();
    let mut dmax: u32 = 0;
    let mut j: usize = 0;
    while j < n
        invariant
            j <= n,
            n == gidxs.len(),
            pal.wf(),
            idxs@.len() == n,
            n <= pal@.len(),
            forall|t: int| 0 <= t < n ==> #[trigger] idxs@[t] == gidxs[t],
            forall|t: int| 0 <= t < n ==> 0 <= #[trigger] gidxs[t] < pal@.len(),
            dists@.len() == j,
            forall|t: int| 0 <= t < j ==> #[trigger] dists@[t] == spec_dist(pal@[gidxs[t]], *c),
            dmax == spec_max_dist(pal@, *c, gidxs, j as int),
            dmax <= 441,
        decreases n - j,
    {
        let col = pal.get(idxs[j]);
        let d2 = col.sq_dist(c);
        let d = isqrt(d2);
        if d > dmax {
            dmax = d;
        }
        dists.push(d);
        j = j + 1;
    }

    let ghost gws = spec_linear_ws(pal@, *c, gidxs);
    let mut ws: Vec<u64> = Vec::new();
    let mut t: usize = 0;
    while t < n
        invariant
            t <= n,
            n == gidxs.len(),
            dists@.len() == n,
            gws.len() == n,
            forall|u: int| 0 <= u < n ==> #[trigger] dists@[u] == spec_dist(pal@[gidxs[u]], *c),
            dmax == spec_max_dist(pal@, *c, gidxs, n as int),
            dmax <= 441,
            ws@.len() == t,
            forall|u: int| 0 <= u < t ==> #[trigger] ws@[u] == gws[u],
            forall|u: int| 0 <= u < t ==> 0 <= #[trigger] gws[u] <= WEIGHT_CAP,
        decreases n - t,
    {
        proof {
            lemma_max_dist(pal@, *c, gidxs, n as int);
            assert(gws[t as int] == spec_max_dist(pal@, *c, gidxs, gidxs.len() as int)
                - spec_dist(pal@[gidxs[t as int]], *c));
            assert(dists@[t as int] == spec_dist(pal@[gidxs[t as int]], *c));
        }
        let d = dists[t];
        let w: u64 = (dmax - d) as u64;
        ws.push(w);
        t = t + 1;
    }
    avg_or_nearest(pal, c, &idxs, &ws, Ghost(gidxs), Ghost(gws))
}

/// Candidate of the Gaussian radial basis variant.
fn candidate_gauss(pal: &Palette, c: &Color, k: usize, shape: u32) -> (out: Color)
    requires
        pal.wf(),
        k <= pal@.len(),
        shape >= 1,
    ensures
        out == spec_gauss_candidate(pal@, *c, k as int, shape as int),
{
    let idxs = pal.k_nearest(c, k);
    let ghost gidxs = spec_k_nearest(pal@, *c, k as int);
    proof {
        lemma_select_nearest_in_bounds(pal@, *c, Seq::new(pal@.len(), |i: int| false), k as int);
        lemma_select_nearest_len(pal@, *c, Seq::new(pal@.len(), |i: int| false), k as int);
    }
    let n = idxs.len();

    proof {
        assert((shape as int) * (shape as int) >= 1 && (shape as int) * (shape as int)
            <= 0xFFFF_FFFF * 0xFFFF_FFFF) by (nonlinear_arith)
            requires
                1 <= shape <= 0xFFFF_FFFF,
        {
        }
    }
    let sh2: u64 = (shape as u64) * (shape as u64);

    let ghost gws = spec_gauss_ws(pal@, *c, gidxs, shape as int);
    let mut ws: Vec<u64> = Vec::new();
    let mut t: usize = 0;
    while t < n
        invariant
            t <= n,
            n == gidxs.len(),
            pal.wf(),
            idxs@.len() == n,
            n <= pal@.len(),
            forall|u: int| 0 <= u < n ==> #[trigger] idxs@[u] == gidxs[u],
            forall|u: int| 0 <= u < n ==> 0 <= #[trigger] gidxs[u] < pal@.len(),
            gws.len() == n,
            sh2 == (shape as int) * (shape as int),
            1 <= sh2,
            ws@.len() == t,
            forall|u: int| 0 <= u < t ==> #[trigger] ws@[u] == gws[u],
            forall|u: int| 0 <= u < t ==> 0 <= #[trigger] gws[u] <= WEIGHT_CAP,
        decreases n - t,
    {
        let col = pal.get(idxs[t]);
        let d2 = col.sq_dist(c);
        proof {
            assert((d2 as int) * 0x8000_0000 <= 195075 * 0x8000_0000) by (nonlinear_arith)
                requires
                    0 <= d2 <= 195075,
            {
            }
        }
        let x: u64 = (d2 as u64) * 0x8000_0000 / sh2;
        let w64 = exp_neg_q16(x);
        let w: u64 = w64 as u64;
        proof {
            assert(gws[t as int] == spec_gauss_weight(
                shape as int,
                spec_sq_dist(pal@[gidxs[t as int]], *c),
            ));
            assert(w == spec_gauss_weight(shape as int, d2 as int));
        }
        ws.push(w);
        t = t + 1;
    }
    avg_or_nearest(pal, c, &idxs, &ws, Ghost(gidxs), Ghost(gws))
}

/// Candidate of Shepard's method.
fn candidate_shepard(pal: &Palette, c: &Color, k: usize, power: u32) -> (out: Color)
    requires
        pal.wf(),
        k <= pal@.len(),
        power >= 1,
    ensures
        out == spec_shepard_candidate(pal@, *c, k as int, power as int),
{
    let idxs = pal.k_nearest(c, k);
    let ghost gidxs = spec_k_nearest(pal@, *c, k as int);
    proof {
        lemma_select_nearest_in_bounds(pal@, *c, Seq::new(pal@.len(), |i: int| false), k as int);
        lemma_select_nearest_len(pal@, *c, Seq::new(pal@.len(), |i: int| false), k as int);
    }
    let n = idxs.len();

    let mut j: usize = 0;
    while j < n
        invariant
            j <= n,
            n == gidxs.len(),
            pal.wf(),
            idxs@.len() == n,
            n <= pal@.len(),
            forall|t: int| 0 <= t < n ==> #[trigger] idxs@[t] == gidxs[t],
            forall|t: int| 0 <= t < n ==> 0 <= #[trigger] gidxs[t] < pal@.len(),
            spec_first_zero(pal@, *c, gidxs, 0) == spec_first_zero(pal@, *c, gidxs, j as int),
        decreases n - j,
    {
        let col = pal.get(idxs[j]);
        let d2 = col.sq_dist(c);
        if d2 == 0 {
            proof {
                assert(spec_first_zero(pal@, *c, gidxs, j as int) == j);
            }
            return col;
        }
        j = j + 1;
    }
    proof {
        assert(spec_first_zero(pal@, *c, gidxs, n as int) == -1);
        lemma_first_zero_none(pal@, *c, gidxs, 0);
    }

    let ghost gws = spec_shepard_ws(pal@, *c, gidxs, power as int);
    let mut ws: Vec<u64> = Vec::new();
    let mut t: usize = 0;
    while t < n
        invariant
            t <= n,
            n == gidxs.len(),
            pal.wf(),
            idxs@.len() == n,
            n <= pal@.len(),
            power >= 1,
            forall|u: int| 0 <= u < n ==> #[trigger] idxs@[u] == gidxs[u],
            forall|u: int| 0 <= u < n ==> 0 <= #[trigger] gidxs[u] < pal@.len(),
            spec_first_zero(pal@, *c, gidxs, 0) == -1,
            forall|u: int|
                0 <= u < n ==> #[trigger] spec_sq_dist(pal@[gidxs[u]], *c) != 0,
            gws.len() == n,
            ws@.len() == t,
            forall|u: int| 0 <= u < t ==> #[trigger] ws@[u] == gws[u],
            forall|u: int| 0 <= u < t ==> 0 <= #[trigger] gws[u] <= WEIGHT_CAP,
        decreases n - t,
    {
        let col = pal.get(idxs[t]);
        let d2 = col.sq_dist(c);
        let d = isqrt(d2);
        proof {
            crate::math::lemma_sqrt_floor_bounds(d2 as nat);
            assert(spec_sq_dist(pal@[gidxs[t as int]], *c) != 0);
            assert(d >= 1) by (nonlinear_arith)
                requires
                    d2 >= 1,
                    ((d as int) + 1) * ((d as int) + 1) > d2,
                    d >= 0,
            {
            }
        }
        let w = shepard_weight(d, power);
        proof {
            assert(gws[t as int] == spec_shepard_weight(
                spec_dist(pal@[gidxs[t as int]], *c) as nat,
                power as nat,
            ));
        }
        ws.push(w);
        t = t + 1;
    }
    avg_or_nearest(pal, c, &idxs, &ws, Ghost(gidxs), Ghost(gws))
}

/// If the zero scan starting at `i` finds nothing, no entry from `i` on
/// is at distance zero.
proof fn lemma_first_zero_none(pal: Seq<Color>, c: Color, idxs: Seq<int>, i: int)
    requires
        spec_first_zero(pal, c, idxs, i) == -1,
        0 <= i,
    ensures
        forall|u: int| i <= u < idxs.len() ==> #[trigger] spec_sq_dist(pal[idxs[u]], c) != 0,
    decreases idxs.len() - i,
{
    if i < idxs.len() {
        lemma_first_zero_none(pal, c, idxs, i + 1);
    }
}

/// Candidate of the sampling variant.
fn candidate_sampling(
    pal: &Palette,
    c: &Color,
    mean: i32,
    std: u32,
    iterations: usize,
    seed: u64,
    sample: u64,
) -> (out: Color)
    requires
        pal.wf(),
        1 <= iterations <= ITER_MAX,
    ensures
        out == spec_sampling_candidate(
            pal@,
            *c,
            mean as int,
            std as int,
            iterations as int,
            spec_stream_state(seed, sample),
        ),
{
    let mut rng = SampleRng::new(seed, sample);
    let ghost state0 = rng@;
    let mut sr: u64 = 0;
    let mut sg: u64 = 0;
    let mut sb: u64 = 0;
    let mut it: usize = 0;
    while it < iterations
        invariant
            it <= iterations,
            iterations <= ITER_MAX,
            pal.wf(),
            sr <= (it as int) * 255,
            sg <= (it as int) * 255,
            sb <= (it as int) * 255,
            sr + spec_sampling_sums(
                pal@,
                *c,
                mean as int,
                std as int,
                rng@,
                (iterations - it) as nat,
            ).0 == spec_sampling_sums(
                pal@,
                *c,
                mean as int,
                std as int,
                state0,
                iterations as nat,
            ).0,
            sg + spec_sampling_sums(
                pal@,
                *c,
                mean as int,
                std as int,
                rng@,
                (iterations - it) as nat,
            ).1 == spec_sampling_sums(
                pal@,
                *c,
                mean as int,
                std as int,
                state0,
                iterations as nat,
            ).1,
            sb + spec_sampling_sums(
                pal@,
                *c,
                mean as int,
                std as int,
                rng@,
                (iterations - it) as nat,
            ).2 == spec_sampling_sums(
                pal@,
                *c,
                mean as int,
                std as int,
                state0,
                iterations as nat,
            ).2,
        decreases iterations - it,
    {
        let ghost state_before = rng@;
        let sa = rng.sum12();
        let sb12 = rng.sum12();
        let sc = rng.sum12();
        let pr = perturb_channel(c.r, mean, std, sa);
        let pg = perturb_channel(c.g, mean, std, sb12);
        let pb = perturb_channel(c.b, mean, std, sc);
        let perturbed = Color { r: pr, g: pg, b: pb };
        proof {
            assert(spec_perturb_color(*c, mean as int, std as int, state_before) == (
                rng@,
                perturbed,
            ));
            lemma_nearest(pal@, perturbed);
        }
        let ni = pal.nearest(&perturbed);
        let hit = pal.get(ni);
        sr = sr + (hit.r as u64);
        sg = sg + (hit.g as u64);
        sb = sb + (hit.b as u64);
        it = it + 1;
    }
    proof {
        assert(sr / (iterations as u64) <= 255 && sg / (iterations as u64) <= 255 && sb / (
        iterations as u64) <= 255) by (nonlinear_arith)
            requires
                1 <= iterations,
                sr <= (iterations as int) * 255,
                sg <= (iterations as int) * 255,
                sb <= (iterations as int) * 255,
        {
        }
    }
    Color {
        r: (sr / (iterations as u64)) as u8,
        g: (sg / (iterations as u64)) as u8,
        b: (sb / (iterations as u64)) as u8,
    }
}

} // verus!
