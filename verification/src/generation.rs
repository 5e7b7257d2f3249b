//! The caller-facing parameter surface: palette flavors, algorithm
//! choice, and the raw generation properties.
//!
//! Fractional parameters are fixed-point integers; each field says its
//! scale. The flavor palettes come from the `lutgen_palettes` crate
//! through trusted wrappers and are consumed as plain color lists.

use vstd::prelude::*;

use crate::color::Color;
use crate::correct::{correct, spec_pixel_ok, Image};
use crate::error::Error;
use crate::lut::{generate, spec_cube_total, spec_sample_color, LookupTable};
use crate::palette::{spec_palette_wf, Palette, PALETTE_MAX};
use crate::remap::{spec_config_of, spec_remap, RemapperConfig};

verus! {

/// Seed of the deterministic sampling stream, fixed once per run so
/// repeated runs are bit-identical (the byte string `42080085`).
pub const GENERATION_SEED: u64 = 0x3432_3038_3030_3835;

/// A named target palette.
#[derive(Clone, Copy, Debug, PartialEq, Eq, Structural)]
pub enum Flavor {
    Latte,
    Frappe,
    Macchiato,
    Mocha,
    Oled,
}

/// One of the five remapping algorithms.
#[derive(Clone, Copy, Debug, PartialEq, Eq, Structural)]
pub enum Algorithm {
    ShepardsMethod,
    GaussianRBF,
    LinearRBF,
    GaussianSampling,
    NearestNeighbor,
}

/// Raw generation parameters, as a caller hands them in; validated once
/// when a remapper configuration is built from them.
///
/// Scales: `luminosity` is a fraction over [`crate::color::LUM_ONE`];
/// `shape`, `mean` and `std` are Q8 fixed point (256 stands for one
/// channel unit); `power` is a whole exponent.
#[derive(Clone, Copy, Debug, PartialEq, Eq, Structural)]
pub struct Properties {
    pub hald_level: u8,
    pub luminosity: u16,
    pub algorithm: Algorithm,
    pub shape: u32,
    pub nearest: usize,
    pub mean: i32,
    pub std: u32,
    pub iterations: usize,
    pub power: u32,
}

/// Relies on `lutgen_palettes::Palette::CatppuccinLatte.get()`: a fixed
/// list of 26 colors.
#[verifier::external_body]
fn latte_colors() -> (r: Vec<Color>)
    ensures
        r@.len() == 26,
{
    lutgen_palettes::Palette::CatppuccinLatte.get().iter().map(
        |c| Color { r: c[0], g: c[1], b: c[2] },
    ).collect()
}

/// Relies on `lutgen_palettes::Palette::CatppuccinFrappe.get()`: a fixed
/// list of 26 colors.
#[verifier::external_body]
fn frappe_colors() -> (r: Vec<Color>)
    ensures
        r@.len() == 26,
{
    lutgen_palettes::Palette::CatppuccinFrappe.get().iter().map(
        |c| Color { r: c[0], g: c[1], b: c[2] },
    ).collect()
}

/// Relies on `lutgen_palettes::Palette::CatppuccinMacchiato.get()`: a
/// fixed list of 26 colors.
#[verifier::external_body]
fn macchiato_colors() -> (r: Vec<Color>)
    ensures
        r@.len() == 26,
{
    lutgen_palettes::Palette::CatppuccinMacchiato.get().iter().map(
        |c| Color { r: c[0], g: c[1], b: c[2] },
    ).collect()
}

/// Relies on `lutgen_palettes::Palette::CatppuccinMocha.get()`: a fixed
/// list of 26 colors.
#[verifier::external_body]
fn mocha_colors() -> (r: Vec<Color>)
    ensures
        r@.len() == 26,
{
    lutgen_palettes::Palette::CatppuccinMocha.get().iter().map(
        |c| Color { r: c[0], g: c[1], b: c[2] },
    ).collect()
}

/// Relies on `lutgen_palettes::Palette::CatppuccinOled.get()`: a fixed
/// list of 26 colors.
#[verifier::external_body]
fn oled_colors() -> (r: Vec<Color>)
    ensures
        r@.len() == 26,
{
    lutgen_palettes::Palette::CatppuccinOled.get().iter().map(
        |c| Color { r: c[0], g: c[1], b: c[2] },
    ).collect()
}

/// The target palette of a flavor: always well formed.
pub fn flavor_palette(flavor: &Flavor) -> (p: Palette)
    ensures
        p.wf(),
        p@.len() == 26,
{
    let colors = match flavor {
        Flavor::Latte => latte_colors(),
        Flavor::Frappe => frappe_colors(),
        Flavor::Macchiato => macchiato_colors(),
        Flavor::Mocha => mocha_colors(),
        Flavor::Oled => oled_colors(),
    };
    proof {
        assert(26 <= PALETTE_MAX);
    }
    match Palette::new(colors) {
        Ok(p) => p,
        Err(_) => vstd::pervasive::unreached(),
    }
}

/// Recolors an image toward a flavor palette: validates the properties,
/// generates the lookup cube at `hald_level`, and corrects every pixel
/// with it. Returns the cube and the corrected buffer, so a caller can
/// persist either. The level is capped at 16 so the cube fits in
/// memory on any target.
///
/// Errors, in the order they are detected:
/// [`Error::InvalidParameter`] exactly when a parameter of the chosen
/// algorithm is out of range; else [`Error::InvalidResolution`] exactly
/// when `hald_level` is zero; else [`Error::EmptyImage`] exactly when
/// the image has zero width or height.
pub fn catppuccinify(properties: &Properties, flavor: &Flavor, image: &Image) -> (r: Result<
    (LookupTable, Image),
    Error,
>)
    requires
        image.wf(),
        properties.hald_level <= 16,
    ensures
        match r {
            Ok(pair) => {
                &&& spec_config_of(*properties).wf()
                &&& properties.hald_level >= 1
                &&& image.spec_width() > 0 && image.spec_height() > 0
                &&& pair.0.wf()
                &&& pair.0.spec_level() == properties.hald_level
                &&& (exists|pal: Seq<Color>|
                    #![auto]
                    spec_palette_wf(pal) && forall|flat: int|
                        0 <= flat < pair.0@.len() ==> pair.0@[flat] == spec_remap(
                            spec_config_of(*properties),
                            pal,
                            spec_sample_color(properties.hald_level as int, flat),
                            flat as u64,
                        ))
                &&& pair.1.wf()
                &&& pair.1.spec_width() == image.spec_width()
                &&& pair.1.spec_height() == image.spec_height()
                &&& pair.1.spec_channels() == image.spec_channels()
                &&& forall|p: int|
                    0 <= p < image.spec_width() * image.spec_height()
                        ==> #[trigger] spec_pixel_ok(
                        image@,
                        pair.1@,
                        pair.0@,
                        properties.hald_level as int,
                        image.spec_channels() as int,
                        p,
                    )
            },
            Err(e) => {
                ||| (e == Error::InvalidParameter && !spec_config_of(*properties).wf())
                ||| (e == Error::InvalidResolution && spec_config_of(*properties).wf()
                    && properties.hald_level == 0)
                ||| (e == Error::EmptyImage && spec_config_of(*properties).wf()
                    && properties.hald_level >= 1 && (image.spec_width() == 0
                    || image.spec_height() == 0))
            },
        },
{
    let cfg = match RemapperConfig::new(properties) {
        Ok(cfg) => cfg,
        Err(e) => {
            return Err(e);
        },
    };
    let palette = flavor_palette(flavor);
    proof {
        assert(spec_cube_total(properties.hald_level as int) <= 16777216) by (nonlinear_arith)
            requires
                properties.hald_level <= 16,
        {
        }
    }
    let lut = match generate(&palette, &cfg, properties.hald_level) {
        Ok(lut) => lut,
        Err(e) => {
            return Err(e);
        },
    };
    let out = match correct(image, &lut) {
        Ok(out) => out,
        Err(e) => {
            return Err(e);
        },
    };
    proof {
        assert(spec_palette_wf(palette@) && forall|flat: int|
            0 <= flat < lut@.len() ==> lut@[flat] == spec_remap(
                spec_config_of(*properties),
                palette@,
                spec_sample_color(properties.hald_level as int, flat),
                flat as u64,
            ));
    }
    Ok((lut, out))
}

} // verus!
