//! Laws of the engine, stated and proved over the same spec functions
//! the executable contracts use.

use vstd::prelude::*;

use crate::color::{
    lemma_blend_full, lemma_blend_same, lemma_blend_zero, lemma_sq_dist_zero, spec_sq_dist, Color,
    LUM_ONE,
};
use crate::correct::{lemma_lookup_flat_in_range, spec_lookup_flat, spec_pixel_ok, spec_quantize};
use crate::lut::{spec_cube_total, spec_sample_color};
use crate::palette::{
    lemma_nearest, lemma_select_nearest_head, spec_k_nearest, spec_nearest, spec_palette_wf,
};
use crate::remap::{spec_clamped_k, spec_remap, RemapperConfig};

verus! {

/// The luminosity blend factor a configuration carries.
pub open spec fn spec_luminosity_of(cfg: RemapperConfig) -> u16 {
    match cfg {
        RemapperConfig::NearestNeighbor { luminosity } => luminosity,
        RemapperConfig::LinearRbf { luminosity, .. } => luminosity,
        RemapperConfig::GaussianRbf { luminosity, .. } => luminosity,
        RemapperConfig::ShepardsMethod { luminosity, .. } => luminosity,
        RemapperConfig::GaussianSampling { luminosity, .. } => luminosity,
    }
}

/// With luminosity zero, remapping returns every source color
/// unchanged, whatever the algorithm, palette and sample index.
pub proof fn lemma_zero_luminosity_identity(
    cfg: RemapperConfig,
    pal: Seq<Color>,
    c: Color,
    sample: u64,
)
    requires
        spec_luminosity_of(cfg) == 0,
    ensures
        spec_remap(cfg, pal, c, sample) == c,
{
    match cfg {
        RemapperConfig::NearestNeighbor { luminosity } => {
            lemma_blend_zero(c, pal[spec_nearest(pal, c)]);
        },
        RemapperConfig::LinearRbf { nearest, luminosity } => {
            lemma_blend_zero(
                c,
                crate::remap::spec_linear_candidate(
                    pal,
                    c,
                    spec_clamped_k(nearest as int, pal.len() as int),
                ),
            );
        },
        RemapperConfig::GaussianRbf { shape, nearest, luminosity } => {
            lemma_blend_zero(
                c,
                crate::remap::spec_gauss_candidate(
                    pal,
                    c,
                    spec_clamped_k(nearest as int, pal.len() as int),
                    shape as int,
                ),
            );
        },
        RemapperConfig::ShepardsMethod { power, nearest, luminosity } => {
            lemma_blend_zero(
                c,
                crate::remap::spec_shepard_candidate(
                    pal,
                    c,
                    spec_clamped_k(nearest as int, pal.len() as int),
                    power as int,
                ),
            );
        },
        RemapperConfig::GaussianSampling { mean, std, iterations, seed, luminosity } => {
            lemma_blend_zero(
                c,
                crate::remap::spec_sampling_candidate(
                    pal,
                    c,
                    mean as int,
                    std as int,
                    iterations as int,
                    crate::rng::spec_stream_state(seed, sample),
                ),
            );
        },
    }
}

/// At the full resolution level (16, where the cube samples every
/// 8-bit coordinate exactly), correcting through a zero-luminosity
/// table leaves every pixel byte-identical. At coarser levels the
/// nearest-bucket lookup quantizes, so the corrected pixel holds its
/// bucket's color instead; only this level makes the identity exact.
pub proof fn lemma_zero_luminosity_identity_at_full_resolution(
    cfg: RemapperConfig,
    pal: Seq<Color>,
    lut: Seq<Color>,
    src: Seq<u8>,
    dst: Seq<u8>,
    ch: int,
    p: int,
)
    requires
        spec_luminosity_of(cfg) == 0,
        lut.len() == spec_cube_total(16),
        forall|flat: int|
            0 <= flat < lut.len() ==> #[trigger] lut[flat] == spec_remap(
                cfg,
                pal,
                spec_sample_color(16, flat),
                flat as u64,
            ),
        ch == 3 || ch == 4,
        0 <= p,
        p * ch + ch <= src.len(),
        src.len() == dst.len(),
        spec_pixel_ok(src, dst, lut, 16, ch, p),
    ensures
        dst[p * ch] == src[p * ch],
        dst[p * ch + 1] == src[p * ch + 1],
        dst[p * ch + 2] == src[p * ch + 2],
        ch == 4 ==> dst[p * ch + 3] == src[p * ch + 3],
{
    let base = p * ch;
    let r = src[base] as int;
    let g = src[base + 1] as int;
    let b = src[base + 2] as int;
    assert(crate::lut::spec_samples_per_channel(16) == 256) by (nonlinear_arith);
    assert((r * 255 + 127) / 255 == r && (g * 255 + 127) / 255 == g && (b * 255 + 127) / 255 == b)
        by (nonlinear_arith)
        requires
            0 <= r <= 255 && 0 <= g <= 255 && 0 <= b <= 255,
    {
    }
    assert(spec_quantize(256, r) == r && spec_quantize(256, g) == g && spec_quantize(256, b) == b);
    let flat = spec_lookup_flat(16, r, g, b);
    assert(flat == r + 256 * g + 256 * 256 * b);
    lemma_lookup_flat_in_range(16, r, g, b);
    assert((r + 256 * g + 65536 * b) % 256 == r && ((r + 256 * g + 65536 * b) / 256) % 256 == g
        && (r + 256 * g + 65536 * b) / 65536 == b) by (nonlinear_arith)
        requires
            0 <= r <= 255 && 0 <= g <= 255 && 0 <= b <= 255,
    {
    }
    assert((r * 255) / 255 == r && (g * 255) / 255 == g && (b * 255) / 255 == b)
        by (nonlinear_arith)
        requires
            0 <= r <= 255 && 0 <= g <= 255 && 0 <= b <= 255,
    {
    }
    let sample = spec_sample_color(16, flat);
    assert(sample == (Color { r: src[base], g: src[base + 1], b: src[base + 2] }));
    lemma_zero_luminosity_identity(cfg, pal, sample, flat as u64);
    assert(lut[flat] == sample);
}

/// Generation is deterministic: two tables built from the same palette,
/// configuration and level hold the same entries, whatever order their
/// slots were computed in.
pub proof fn lemma_generate_deterministic(
    cfg: RemapperConfig,
    pal: Seq<Color>,
    level: int,
    a: Seq<Color>,
    b: Seq<Color>,
)
    requires
        a.len() == spec_cube_total(level),
        b.len() == spec_cube_total(level),
        forall|flat: int|
            0 <= flat < a.len() ==> #[trigger] a[flat] == spec_remap(
                cfg,
                pal,
                spec_sample_color(level, flat),
                flat as u64,
            ),
        forall|flat: int|
            0 <= flat < b.len() ==> #[trigger] b[flat] == spec_remap(
                cfg,
                pal,
                spec_sample_color(level, flat),
                flat as u64,
            ),
    ensures
        a == b,
{
    assert(a =~= b);
}

/// The configuration with its neighbor request replaced.
pub open spec fn spec_with_nearest(cfg: RemapperConfig, k: usize) -> RemapperConfig {
    match cfg {
        RemapperConfig::LinearRbf { nearest, luminosity } => RemapperConfig::LinearRbf {
            nearest: k,
            luminosity,
        },
        RemapperConfig::GaussianRbf { shape, nearest, luminosity } => RemapperConfig::GaussianRbf {
            shape,
            nearest: k,
            luminosity,
        },
        RemapperConfig::ShepardsMethod { power, nearest, luminosity } => {
            RemapperConfig::ShepardsMethod { power, nearest: k, luminosity }
        },
        _ => cfg,
    }
}

/// Whether the configuration asks for more neighbors than `len` exist.
pub open spec fn spec_requests_excess_neighbors(cfg: RemapperConfig, len: int) -> bool {
    match cfg {
        RemapperConfig::LinearRbf { nearest, .. } => nearest >= len,
        RemapperConfig::GaussianRbf { nearest, .. } => nearest >= len,
        RemapperConfig::ShepardsMethod { nearest, .. } => nearest >= len,
        _ => true,
    }
}

/// Requesting more neighbors than the palette holds behaves exactly as
/// requesting the palette size: the neighbor count is clamped.
pub proof fn lemma_nearest_clamped(cfg: RemapperConfig, pal: Seq<Color>, c: Color, sample: u64)
    requires
        pal.len() >= 1,
        pal.len() <= usize::MAX,
        spec_requests_excess_neighbors(cfg, pal.len() as int),
    ensures
        spec_remap(cfg, pal, c, sample) == spec_remap(
            spec_with_nearest(cfg, pal.len() as usize),
            pal,
            c,
            sample,
        ),
{
    assert(spec_clamped_k(pal.len() as int, pal.len() as int) == pal.len() as int);
}

/// Every pixel corrected through a nearest-neighbor, full-luminosity
/// table holds the RGB value of some palette entry.
pub proof fn lemma_corrected_pixels_in_palette(
    pal: Seq<Color>,
    lut: Seq<Color>,
    level: int,
    src: Seq<u8>,
    dst: Seq<u8>,
    ch: int,
    p: int,
)
    requires
        pal.len() >= 1,
        level >= 1,
        lut.len() == spec_cube_total(level),
        forall|flat: int|
            0 <= flat < lut.len() ==> #[trigger] lut[flat] == spec_remap(
                RemapperConfig::NearestNeighbor { luminosity: LUM_ONE },
                pal,
                spec_sample_color(level, flat),
                flat as u64,
            ),
        ch == 3 || ch == 4,
        0 <= p,
        p * ch + ch <= src.len(),
        src.len() == dst.len(),
        spec_pixel_ok(src, dst, lut, level, ch, p),
    ensures
        exists|i: int|
            0 <= i < pal.len() && pal[i] == (Color {
                r: dst[p * ch],
                g: dst[p * ch + 1],
                b: dst[p * ch + 2],
            }),
{
    let base = p * ch;
    let flat = spec_lookup_flat(level, src[base] as int, src[base + 1] as int, src[base + 2] as int);
    lemma_lookup_flat_in_range(
        level,
        src[base] as int,
        src[base + 1] as int,
        src[base + 2] as int,
    );
    let sample = spec_sample_color(level, flat);
    let ni = spec_nearest(pal, sample);
    lemma_nearest(pal, sample);
    lemma_blend_full(sample, pal[ni]);
    assert(lut[flat] == pal[ni]);
    assert(pal[ni] == (Color { r: dst[base], g: dst[base + 1], b: dst[base + 2] }));
}

/// For a positive weight, a weighted singleton average is exact.
proof fn lemma_mul_div_self(w: int, x: int)
    requires
        w >= 1,
    ensures
        (w * x) / w == x,
{
    assert((w * x) / w == x) by (nonlinear_arith)
        requires
            w >= 1,
    {
    }
}

/// The channel sums of the sampling variant over a one-color palette:
/// every draw hits that color.
proof fn lemma_sampling_sums_singleton(
    pal: Seq<Color>,
    c: Color,
    mean: int,
    std: int,
    state: u64,
    n: nat,
)
    requires
        pal.len() == 1,
    ensures
        crate::remap::spec_sampling_sums(pal, c, mean, std, state, n) == ((
        n * pal[0].r) as int, (n * pal[0].g) as int, (n * pal[0].b) as int),
    decreases n,
{
    if n == 0 {
    } else {
        let step = crate::remap::spec_perturb_color(c, mean, std, state);
        lemma_sampling_sums_singleton(pal, c, mean, std, step.0, (n - 1) as nat);
        assert(spec_nearest(pal, step.1) == 0);
        assert(pal[0].r + (n - 1) * pal[0].r == n * pal[0].r) by (nonlinear_arith);
        assert(pal[0].g + (n - 1) * pal[0].g == n * pal[0].g) by (nonlinear_arith);
        assert(pal[0].b + (n - 1) * pal[0].b == n * pal[0].b) by (nonlinear_arith);
    }
}

/// Over a palette of a single color, remapping with full luminosity
/// returns that color, whatever the algorithm and the source.
pub proof fn lemma_singleton_palette_full_luminosity(
    cfg: RemapperConfig,
    pal: Seq<Color>,
    c: Color,
    sample: u64,
)
    requires
        pal.len() == 1,
        cfg.wf(),
        spec_luminosity_of(cfg) == LUM_ONE,
    ensures
        spec_remap(cfg, pal, c, sample) == pal[0],
{
    let used0 = Seq::new(pal.len(), |i: int| false);
    assert(spec_nearest(pal, c) == 0);
    lemma_blend_full(c, pal[0]);
    let d2 = spec_sq_dist(pal[0], c);
    crate::color::lemma_sq_dist_nonneg(pal[0], c);
    match cfg {
        RemapperConfig::NearestNeighbor { luminosity } => {
        },
        RemapperConfig::LinearRbf { nearest, luminosity } => {
            let k = spec_clamped_k(nearest as int, 1);
            assert(k == 1);
            lemma_singleton_selection(pal, c);
            let idxs = spec_k_nearest(pal, c, 1);
            let ws = crate::remap::spec_linear_ws(pal, c, idxs);
            assert(crate::remap::spec_max_dist(pal, c, idxs, 0) == 0);
            assert(crate::remap::spec_max_dist(pal, c, idxs, 1) == crate::remap::spec_dist(
                pal[0],
                c,
            ));
            assert(ws[0] == 0);
            assert(crate::remap::spec_wacc(pal, idxs, ws, 0) == (0int, 0int, 0int, 0int));
            assert(crate::remap::spec_wacc(pal, idxs, ws, 1).3 == 0);
            assert(crate::remap::spec_linear_candidate(pal, c, 1) == pal[0]);
        },
        RemapperConfig::GaussianRbf { shape, nearest, luminosity } => {
            let k = spec_clamped_k(nearest as int, 1);
            assert(k == 1);
            lemma_singleton_selection(pal, c);
            let idxs = spec_k_nearest(pal, c, 1);
            let ws = crate::remap::spec_gauss_ws(pal, c, idxs, shape as int);
            let w = ws[0];
            assert(w == crate::remap::spec_gauss_weight(shape as int, d2));
            assert((d2 * 0x8000_0000) / ((shape as int) * (shape as int)) >= 0)
                by (nonlinear_arith)
                requires
                    d2 >= 0,
                    shape >= 1,
            {
            }
            crate::math::lemma_exp_neg_q16_bounds(
                (d2 * 0x8000_0000) / ((shape as int) * (shape as int)),
            );
            lemma_singleton_average(pal, c, idxs, ws);
            assert(crate::remap::spec_gauss_candidate(pal, c, 1, shape as int) == pal[0]);
        },
        RemapperConfig::ShepardsMethod { power, nearest, luminosity } => {
            let k = spec_clamped_k(nearest as int, 1);
            assert(k == 1);
            lemma_singleton_selection(pal, c);
            let idxs = spec_k_nearest(pal, c, 1);
            if spec_sq_dist(pal[idxs[0]], c) == 0 {
                assert(crate::remap::spec_first_zero(pal, c, idxs, 0) == 0);
                assert(crate::remap::spec_shepard_candidate(pal, c, 1, power as int) == pal[0]);
            } else {
                assert(crate::remap::spec_first_zero(pal, c, idxs, 1) == -1);
                assert(crate::remap::spec_first_zero(pal, c, idxs, 0) == -1);
                let ws = crate::remap::spec_shepard_ws(pal, c, idxs, power as int);
                let d = crate::remap::spec_dist(pal[0], c) as nat;
                assert(ws[0] == crate::math::spec_shepard_weight(d, power as nat));
                assert(ws[0] >= 0) by {
                    crate::math::lemma_sqrt_floor_bounds(spec_sq_dist(pal[0], c) as nat);
                    if d == 0 {
                        assert((0 + 1) * (0 + 1) == 1) by (nonlinear_arith);
                        assert(false);
                    }
                    if crate::math::spec_pow(d, power as nat) > crate::math::SHEPARD_SCALE {
                    } else {
                        crate::math::lemma_pow_mono(d, 0, power as nat);
                        assert(crate::math::SHEPARD_SCALE as int / (crate::math::spec_pow(
                            d,
                            power as nat,
                        ) as int) >= 0) by (nonlinear_arith)
                            requires
                                crate::math::spec_pow(d, power as nat) >= 1,
                                crate::math::SHEPARD_SCALE == 0x100_0000,
                        {
                        }
                    }
                }
                lemma_singleton_average(pal, c, idxs, ws);
                assert(crate::remap::spec_shepard_candidate(pal, c, 1, power as int) == pal[0]);
            }
        },
        RemapperConfig::GaussianSampling { mean, std, iterations, seed, luminosity } => {
            let st = crate::rng::spec_stream_state(seed, sample);
            lemma_sampling_sums_singleton(pal, c, mean as int, std as int, st, iterations as nat);
            lemma_mul_div_self(iterations as int, pal[0].r as int);
            lemma_mul_div_self(iterations as int, pal[0].g as int);
            lemma_mul_div_self(iterations as int, pal[0].b as int);
            assert((iterations as nat) * pal[0].r == (iterations as int) * (pal[0].r as int));
            assert(crate::remap::spec_sampling_candidate(
                pal,
                c,
                mean as int,
                std as int,
                iterations as int,
                st,
            ) == pal[0]);
        },
    }
}

/// Over a one-color palette the single selected index is zero.
proof fn lemma_singleton_selection(pal: Seq<Color>, c: Color)
    requires
        pal.len() == 1,
    ensures
        spec_k_nearest(pal, c, 1).len() == 1,
        spec_k_nearest(pal, c, 1)[0] == 0,
{
    let used0 = Seq::new(pal.len(), |i: int| false);
    assert(!used0[0]);
    assert(crate::palette::spec_argmin_unused(pal, c, used0, 0) == -1);
    assert(crate::palette::spec_argmin_unused(pal, c, used0, 1) == 0);
    let idxs = crate::palette::spec_select_nearest(pal, c, used0, 1);
    assert(idxs == seq![0int] + crate::palette::spec_select_nearest(
        pal,
        c,
        used0.update(0, true),
        0,
    ));
    assert(idxs.len() == 1);
    assert(idxs[0] == 0);
}

/// A weighted average over one selected entry with a nonnegative weight
/// is that entry (or the nearest fallback, which is the same entry).
proof fn lemma_singleton_average(pal: Seq<Color>, c: Color, idxs: Seq<int>, ws: Seq<int>)
    requires
        pal.len() == 1,
        idxs.len() == 1,
        idxs[0] == 0,
        ws.len() == 1,
        ws[0] >= 0,
    ensures
        crate::remap::spec_avg_or_nearest(pal, c, idxs, ws) == pal[0],
{
    let acc = crate::remap::spec_wacc(pal, idxs, ws, 1);
    let w = ws[0];
    assert(crate::remap::spec_wacc(pal, idxs, ws, 0) == (0int, 0int, 0int, 0int));
    assert(acc.0 == w * pal[0].r && acc.1 == w * pal[0].g && acc.2 == w * pal[0].b && acc.3 == w);
    if w <= 0 {
        assert(spec_nearest(pal, c) == 0);
    } else {
        lemma_mul_div_self(w, pal[0].r as int);
        lemma_mul_div_self(w, pal[0].g as int);
        lemma_mul_div_self(w, pal[0].b as int);
    }
}

/// Shepard's method returns a source color that exactly equals some
/// palette entry unchanged, whatever the exponent, the blend factor and
/// the other palette entries.
pub proof fn lemma_shepard_exact_match(
    pal: Seq<Color>,
    c: Color,
    sample: u64,
    power: u32,
    nearest: usize,
    luminosity: u16,
)
    requires
        1 <= pal.len(),
        nearest >= 1,
        luminosity <= LUM_ONE,
        exists|i: int| 0 <= i < pal.len() && pal[i] == c,
    ensures
        spec_remap(
            RemapperConfig::ShepardsMethod { power, nearest, luminosity },
            pal,
            c,
            sample,
        ) == c,
{
    let k = spec_clamped_k(nearest as int, pal.len() as int);
    let used = Seq::new(pal.len(), |i: int| false);
    let wit = choose|i: int| 0 <= i < pal.len() && pal[i] == c;
    assert(!used[wit]);
    lemma_select_nearest_head(pal, c, used, k);
    let idxs = spec_k_nearest(pal, c, k);
    let h = idxs[0];
    assert(spec_sq_dist(c, c) == 0);
    assert(spec_sq_dist(pal[h], c) <= spec_sq_dist(pal[wit], c));
    assert(spec_sq_dist(pal[h], c) >= 0) by (nonlinear_arith);
    assert(spec_sq_dist(pal[h], c) == 0);
    assert(crate::remap::spec_first_zero(pal, c, idxs, 0) == 0);
    lemma_sq_dist_zero(pal[h], c);
    assert(crate::remap::spec_shepard_candidate(pal, c, k, power as int) == c);
    lemma_blend_same(c, luminosity as int);
}

} // verus!
