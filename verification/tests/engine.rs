use catppuccinifier::color::{Color, LUM_ONE};
use catppuccinifier::correct::{correct, Image};
use catppuccinifier::error::Error;
use catppuccinifier::generation::{catppuccinify, flavor_palette, Algorithm, Flavor, Properties};
use catppuccinifier::lut::{generate, LookupTable};
use catppuccinifier::palette::Palette;
use catppuccinifier::remap::RemapperConfig;

fn props(algorithm: Algorithm) -> Properties {
    Properties {
        hald_level: 2,
        luminosity: LUM_ONE,
        algorithm,
        shape: 512,
        nearest: 2,
        mean: 0,
        std: 256,
        iterations: 8,
        power: 4,
    }
}

fn red_blue() -> Palette {
    Palette::new(vec![Color::new(255, 0, 0), Color::new(0, 0, 255)]).unwrap()
}

fn lut_colors(lut: &LookupTable) -> Vec<Color> {
    (0..lut.len()).map(|i| lut.get(i)).collect()
}

fn config(algorithm: Algorithm) -> RemapperConfig {
    RemapperConfig::new(&props(algorithm)).unwrap()
}

const ALGORITHMS: [Algorithm; 5] = [
    Algorithm::NearestNeighbor,
    Algorithm::LinearRBF,
    Algorithm::GaussianRBF,
    Algorithm::ShepardsMethod,
    Algorithm::GaussianSampling,
];

#[test]
fn nearest_full_luminosity_pixels_come_from_palette() {
    let pal = red_blue();
    let cfg = config(Algorithm::NearestNeighbor);
    let lut = generate(&pal, &cfg, 4).unwrap();
    let data: Vec<u8> = (0..60).map(|i| (i * 37 % 256) as u8).collect();
    let img = Image::new(5, 4, 3, data).unwrap();
    let out = correct(&img, &lut).unwrap();
    for p in 0..20 {
        let px = (
            out.byte_at(3 * p),
            out.byte_at(3 * p + 1),
            out.byte_at(3 * p + 2),
        );
        assert!(px == (255, 0, 0) || px == (0, 0, 255), "pixel {:?} not in palette", px);
    }
}

#[test]
fn zero_luminosity_remap_keeps_every_source_color() {
    let pal = red_blue();
    for algorithm in ALGORITHMS {
        let mut p = props(algorithm);
        p.luminosity = 0;
        let cfg = RemapperConfig::new(&p).unwrap();
        for c in [
            Color::new(0, 0, 0),
            Color::new(10, 200, 37),
            Color::new(255, 255, 255),
        ] {
            let out = cfg.remap(&pal, &c, 11);
            assert_eq!((out.r, out.g, out.b), (c.r, c.g, c.b));
        }
    }
}

#[test]
fn zero_luminosity_full_resolution_corrects_to_identity() {
    // At level 16 the cube samples every 8-bit value, so a
    // zero-luminosity table is the identity on whole images.
    let pal = Palette::new(vec![Color::new(40, 50, 60)]).unwrap();
    let mut p = props(Algorithm::NearestNeighbor);
    p.luminosity = 0;
    p.hald_level = 16;
    let cfg = RemapperConfig::new(&p).unwrap();
    let lut = generate(&pal, &cfg, 16).unwrap();
    let data: Vec<u8> = (0..48).map(|i| (i * 89 % 256) as u8).collect();
    let img = Image::new(4, 4, 3, data.clone()).unwrap();
    let out = correct(&img, &lut).unwrap();
    for (i, byte) in data.iter().enumerate() {
        assert_eq!(out.byte_at(i), *byte);
    }
}

#[test]
fn gaussian_sampling_tables_are_byte_identical_across_runs() {
    let pal = red_blue();
    let cfg = config(Algorithm::GaussianSampling);
    let a = generate(&pal, &cfg, 3).unwrap();
    let b = generate(&pal, &cfg, 3).unwrap();
    assert_eq!(a.len(), b.len());
    assert_eq!(lut_colors(&a), lut_colors(&b));
}

#[test]
fn singleton_palette_full_luminosity_fills_table_with_that_color() {
    let only = Color::new(30, 144, 255);
    let pal = Palette::new(vec![only]).unwrap();
    for algorithm in ALGORITHMS {
        let cfg = config(algorithm);
        let lut = generate(&pal, &cfg, 2).unwrap();
        for entry in lut_colors(&lut) {
            assert_eq!((entry.r, entry.g, entry.b), (only.r, only.g, only.b));
        }
    }
}

#[test]
fn excess_neighbor_requests_are_clamped_to_palette_size() {
    let pal = red_blue();
    for algorithm in [
        Algorithm::LinearRBF,
        Algorithm::GaussianRBF,
        Algorithm::ShepardsMethod,
    ] {
        let mut big = props(algorithm);
        big.nearest = 10;
        let mut exact = props(algorithm);
        exact.nearest = 2;
        let lut_big = generate(&pal, &RemapperConfig::new(&big).unwrap(), 2).unwrap();
        let lut_exact = generate(&pal, &RemapperConfig::new(&exact).unwrap(), 2).unwrap();
        assert_eq!(lut_colors(&lut_big), lut_colors(&lut_exact));
    }
}

#[test]
fn alpha_channel_passes_through_unchanged() {
    let pal = red_blue();
    let cfg = config(Algorithm::GaussianRBF);
    let lut = generate(&pal, &cfg, 2).unwrap();
    let data: Vec<u8> = (0..64).map(|i| (i * 53 % 256) as u8).collect();
    let img = Image::new(4, 4, 4, data.clone()).unwrap();
    let out = correct(&img, &lut).unwrap();
    for p in 0..16 {
        assert_eq!(out.byte_at(4 * p + 3), data[4 * p + 3]);
    }
}

#[test]
fn bright_red_pixel_corrects_to_red_palette_entry() {
    // Palette {red, blue}, level 2, nearest neighbor, full luminosity:
    // (250,5,5) falls in the bucket of (255,0,0) and maps to red.
    let pal = red_blue();
    let cfg = config(Algorithm::NearestNeighbor);
    let lut = generate(&pal, &cfg, 2).unwrap();
    let img = Image::new(1, 1, 3, vec![250, 5, 5]).unwrap();
    let out = correct(&img, &lut).unwrap();
    assert_eq!((out.byte_at(0), out.byte_at(1), out.byte_at(2)), (255, 0, 0));
}

#[test]
fn dark_pixel_ties_break_to_first_palette_entry() {
    // (10,10,10) maps to the dark corner bucket (0,0,0), which is
    // equidistant from red and blue; ties go to the first entry.
    let pal = red_blue();
    let cfg = config(Algorithm::NearestNeighbor);
    let lut = generate(&pal, &cfg, 2).unwrap();
    let img = Image::new(1, 1, 3, vec![10, 10, 10]).unwrap();
    let out = correct(&img, &lut).unwrap();
    assert_eq!((out.byte_at(0), out.byte_at(1), out.byte_at(2)), (255, 0, 0));
}

#[test]
fn shepards_method_returns_exact_palette_match_unchanged() {
    let pal = Palette::new(vec![
        Color::new(255, 0, 0),
        Color::new(17, 34, 51),
        Color::new(0, 0, 255),
    ])
    .unwrap();
    let exact = Color::new(17, 34, 51);
    for power in [1u32, 4, 9] {
        let mut p = props(Algorithm::ShepardsMethod);
        p.power = power;
        p.nearest = 3;
        let cfg = RemapperConfig::new(&p).unwrap();
        let out = cfg.remap(&pal, &exact, 0);
        assert_eq!((out.r, out.g, out.b), (17, 34, 51));
    }
}

#[test]
fn half_luminosity_blend_has_exact_fixed_point_value() {
    // blend = (source * (256 - l) + candidate * l) / 256 with l = 128:
    // source (0,0,0) toward candidate (255,0,0) gives (127,0,0).
    let pal = Palette::new(vec![Color::new(255, 0, 0)]).unwrap();
    let mut p = props(Algorithm::NearestNeighbor);
    p.luminosity = 128;
    let cfg = RemapperConfig::new(&p).unwrap();
    let out = cfg.remap(&pal, &Color::new(0, 0, 0), 0);
    assert_eq!((out.r, out.g, out.b), (127, 0, 0));
}

#[test]
fn empty_palette_is_invalid() {
    assert_eq!(Palette::new(vec![]).unwrap_err(), Error::InvalidPalette);
}

#[test]
fn zero_level_is_invalid_resolution() {
    let pal = red_blue();
    let cfg = config(Algorithm::NearestNeighbor);
    assert_eq!(generate(&pal, &cfg, 0).unwrap_err(), Error::InvalidResolution);
}

#[test]
fn out_of_range_parameters_are_rejected() {
    let mut p = props(Algorithm::NearestNeighbor);
    p.luminosity = LUM_ONE + 1;
    assert_eq!(RemapperConfig::new(&p).unwrap_err(), Error::InvalidParameter);

    let mut p = props(Algorithm::GaussianSampling);
    p.iterations = 0;
    assert_eq!(RemapperConfig::new(&p).unwrap_err(), Error::InvalidParameter);

    let mut p = props(Algorithm::GaussianRBF);
    p.shape = 0;
    assert_eq!(RemapperConfig::new(&p).unwrap_err(), Error::InvalidParameter);

    let mut p = props(Algorithm::LinearRBF);
    p.nearest = 0;
    assert_eq!(RemapperConfig::new(&p).unwrap_err(), Error::InvalidParameter);
}

#[test]
fn zero_dimension_images_are_refused() {
    let pal = red_blue();
    let cfg = config(Algorithm::NearestNeighbor);
    let lut = generate(&pal, &cfg, 2).unwrap();
    let img = Image::new(0, 7, 3, vec![]).unwrap();
    assert_eq!(correct(&img, &lut).unwrap_err(), Error::EmptyImage);
}

#[test]
fn mismatched_buffers_are_refused() {
    assert_eq!(Image::new(2, 2, 3, vec![0; 11]).unwrap_err(), Error::InvalidParameter);
    assert_eq!(Image::new(2, 2, 2, vec![0; 8]).unwrap_err(), Error::InvalidParameter);
}

#[test]
fn flavor_palettes_match_the_upstream_lists() {
    for (flavor, upstream) in [
        (Flavor::Latte, lutgen_palettes::Palette::CatppuccinLatte),
        (Flavor::Frappe, lutgen_palettes::Palette::CatppuccinFrappe),
        (Flavor::Macchiato, lutgen_palettes::Palette::CatppuccinMacchiato),
        (Flavor::Mocha, lutgen_palettes::Palette::CatppuccinMocha),
        (Flavor::Oled, lutgen_palettes::Palette::CatppuccinOled),
    ] {
        let pal = flavor_palette(&flavor);
        let colors = upstream.get();
        assert_eq!(pal.len(), colors.len());
        for (i, c) in colors.iter().enumerate() {
            let got = pal.get(i);
            assert_eq!((got.r, got.g, got.b), (c[0], c[1], c[2]));
        }
    }
}

#[test]
fn catppuccinify_recolors_toward_the_flavor_palette() {
    let p = props(Algorithm::NearestNeighbor);
    let data: Vec<u8> = (0..32).map(|i| (i * 31 % 256) as u8).collect();
    let img = Image::new(2, 4, 4, data.clone()).unwrap();
    let (lut, out) = catppuccinify(&p, &Flavor::Mocha, &img).unwrap();
    assert_eq!(lut.level(), 2);
    assert_eq!(lut.len(), 64);
    assert_eq!(out.width(), 2);
    assert_eq!(out.height(), 4);
    assert_eq!(out.channels(), 4);
    let pal = flavor_palette(&Flavor::Mocha);
    let entries: Vec<(u8, u8, u8)> = (0..pal.len())
        .map(|i| {
            let c = pal.get(i);
            (c.r, c.g, c.b)
        })
        .collect();
    for p in 0..8 {
        let px = (
            out.byte_at(4 * p),
            out.byte_at(4 * p + 1),
            out.byte_at(4 * p + 2),
        );
        assert!(entries.contains(&px));
        assert_eq!(out.byte_at(4 * p + 3), data[4 * p + 3]);
    }
}

#[test]
fn catppuccinify_reports_each_failure() {
    let img = Image::new(1, 1, 3, vec![1, 2, 3]).unwrap();
    let mut p = props(Algorithm::ShepardsMethod);
    p.power = 0;
    assert_eq!(
        catppuccinify(&p, &Flavor::Latte, &img).unwrap_err(),
        Error::InvalidParameter
    );
    let mut p = props(Algorithm::NearestNeighbor);
    p.hald_level = 0;
    assert_eq!(
        catppuccinify(&p, &Flavor::Latte, &img).unwrap_err(),
        Error::InvalidResolution
    );
    let empty = Image::new(3, 0, 3, vec![]).unwrap();
    assert_eq!(
        catppuccinify(&props(Algorithm::NearestNeighbor), &Flavor::Latte, &empty).unwrap_err(),
        Error::EmptyImage
    );
}

#[test]
fn linear_rbf_weights_have_exact_fixed_point_values() {
    // Distances 30 and 10 from the source give weights (30-30)=0 and
    // (30-10)=20, so the average is exactly the nearer color.
    let pal = Palette::new(vec![Color::new(0, 0, 0), Color::new(40, 0, 0)]).unwrap();
    let mut p = props(Algorithm::LinearRBF);
    p.nearest = 2;
    let cfg = RemapperConfig::new(&p).unwrap();
    let out = cfg.remap(&pal, &Color::new(30, 0, 0), 0);
    assert_eq!((out.r, out.g, out.b), (40, 0, 0));
}

#[test]
fn shepard_weights_have_exact_fixed_point_values() {
    // Distances 10 and 20 with power 2 give weights 2^24/100 = 167772
    // and 2^24/400 = 41943; the weighted red channel is
    // (167772*0 + 41943*30) / 209715 = 6.
    let pal = Palette::new(vec![Color::new(0, 0, 0), Color::new(30, 0, 0)]).unwrap();
    let mut p = props(Algorithm::ShepardsMethod);
    p.nearest = 2;
    p.power = 2;
    let cfg = RemapperConfig::new(&p).unwrap();
    let out = cfg.remap(&pal, &Color::new(10, 0, 0), 0);
    assert_eq!((out.r, out.g, out.b), (6, 0, 0));
}

#[test]
fn gaussian_rbf_weights_have_exact_fixed_point_values() {
    // Q8 shape 2560 (ten channel units): squared distances 100 and 400
    // give Q16 kernel arguments 0.5 and 2.0, whose fixed-point
    // exponentials are 39595 and 8868; the weighted red channel is
    // (39595*10 + 8868*20) / 48463 = 11.
    let pal = Palette::new(vec![Color::new(10, 0, 0), Color::new(20, 0, 0)]).unwrap();
    let mut p = props(Algorithm::GaussianRBF);
    p.nearest = 2;
    p.shape = 2560;
    let cfg = RemapperConfig::new(&p).unwrap();
    let out = cfg.remap(&pal, &Color::new(0, 0, 0), 0);
    assert_eq!((out.r, out.g, out.b), (11, 0, 0));
}

#[test]
fn squared_distance_is_euclidean() {
    let a = Color::new(10, 20, 30);
    let b = Color::new(13, 16, 42);
    assert_eq!(a.sq_dist(&b), 9 + 16 + 144);
    assert_eq!(a.sq_dist(&a), 0);
}

#[test]
fn error_descriptions_name_each_failure() {
    assert_eq!(Error::InvalidPalette.describe(), "invalid palette");
    assert_eq!(Error::InvalidResolution.describe(), "invalid resolution level");
    assert_eq!(Error::InvalidParameter.describe(), "invalid parameter");
    assert_eq!(Error::EmptyImage.describe(), "empty image");
}
