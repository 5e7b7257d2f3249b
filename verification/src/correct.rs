//! Applying a lookup cube to an image buffer.
//!
//! Every pixel's RGB channels are mapped to the nearest cube sample
//! coordinate (no interpolation between samples) and replaced by the
//! stored output color; an alpha channel passes through untouched.

use vstd::prelude::*;

use crate::error::Error;
use crate::lut::{spec_cube_total, spec_samples_per_channel, LookupTable};

verus! {

/// A rectangular 8-bit pixel buffer, interleaved RGB (3 channels per
/// pixel) or RGBA (4).
#[derive(Debug)]
pub struct Image {
    width: usize,
    height: usize,
    channels: usize,
    data: Vec<u8>,
}

impl View for Image {
    type V = Seq<u8>;

    closed spec fn view(&self) -> Seq<u8> {
        self.data@
    }
}

/// The nearest sample coordinate of a channel value: the bucket whose
/// quantization range contains it, out of `n` per channel.
pub open spec fn spec_quantize(n: int, c: int) -> int {
    if n <= 1 {
        0
    } else {
        (c * (n - 1) + 127) / 255
    }
}

/// Flat cube index of a pixel's RGB channels at a resolution level.
pub open spec fn spec_lookup_flat(level: int, r: int, g: int, b: int) -> int {
    let n = spec_samples_per_channel(level);
    spec_quantize(n, r) + n * spec_quantize(n, g) + n * n * spec_quantize(n, b)
}

/// Quantized coordinates stay inside the per-channel sample range.
pub proof fn lemma_quantize_in_range(n: int, c: int)
    requires
        n >= 1,
        0 <= c <= 255,
    ensures
        0 <= spec_quantize(n, c) < n,
{
    if n > 1 {
        assert(0 <= (c * (n - 1) + 127) / 255 < n) by (nonlinear_arith)
            requires
                0 <= c <= 255,
                n >= 2,
        {
        }
    }
}

/// The flat lookup index of any pixel lies inside the cube.
pub proof fn lemma_lookup_flat_in_range(level: int, r: int, g: int, b: int)
    requires
        level >= 1,
        0 <= r <= 255,
        0 <= g <= 255,
        0 <= b <= 255,
    ensures
        0 <= spec_lookup_flat(level, r, g, b) < spec_cube_total(level),
{
    let n = spec_samples_per_channel(level);
    assert(n >= 1) by (nonlinear_arith)
        requires
            level >= 1,
            n == level * level,
    {
    }
    lemma_quantize_in_range(n, r);
    lemma_quantize_in_range(n, g);
    lemma_quantize_in_range(n, b);
    assert(0 <= spec_quantize(n, r) + n * spec_quantize(n, g) + n * n * spec_quantize(n, b) < n
        * n * n) by (nonlinear_arith)
        requires
            n >= 1,
            0 <= spec_quantize(n, r) < n,
            0 <= spec_quantize(n, g) < n,
            0 <= spec_quantize(n, b) < n,
    {
    }
}

impl Image {
    /// A buffer is well formed when it is interleaved RGB or RGBA and
    /// holds exactly one slot per pixel channel.
    pub open spec fn wf(&self) -> bool {
        (self.spec_channels() == 3 || self.spec_channels() == 4) && self@.len()
            == self.spec_width() * self.spec_height() * self.spec_channels()
    }

    /// The width in pixels.
    pub closed spec fn spec_width(&self) -> usize {
        self.width
    }

    /// The height in pixels.
    pub closed spec fn spec_height(&self) -> usize {
        self.height
    }

    /// Channels per pixel.
    pub closed spec fn spec_channels(&self) -> usize {
        self.channels
    }

    /// Builds an image from its geometry and raw interleaved bytes.
    /// Fails with [`Error::InvalidParameter`] exactly when the channel
    /// count is neither 3 nor 4 or the buffer length does not match the
    /// geometry.
    pub fn new(width: usize, height: usize, channels: usize, data: Vec<u8>) -> (r: Result<
        Image,
        Error,
    >)
        ensures
            match r {
                Ok(img) => {
                    &&& img.wf()
                    &&& img.spec_width() == width
                    &&& img.spec_height() == height
                    &&& img.spec_channels() == channels
                    &&& img@ == data@
                    &&& (channels == 3 || channels == 4)
                    &&& data@.len() == width * height * channels
                },
                Err(e) => {
                    &&& e == Error::InvalidParameter
                    &&& ((channels != 3 && channels != 4) || data@.len() != width * height
                        * channels)
                },
            },
    {
        if channels != 3 && channels != 4 {
            return Err(Error::InvalidParameter);
        }
        let dlen = data.len();
        proof {
            assert(data@.len() == dlen && dlen <= usize::MAX);
        }
        let pixels = match width.checked_mul(height) {
            Some(p) => p,
            None => {
                proof {
                    assert((width as int) * (height as int) * (channels as int) > usize::MAX)
                        by (nonlinear_arith)
                        requires
                            channels >= 3,
                            (width as int) * (height as int) > usize::MAX,
                    {
                    }
                }
                return Err(Error::InvalidParameter);
            },
        };
        let slots = match pixels.checked_mul(channels) {
            Some(s) => s,
            None => {
                proof {
                    assert((width as int) * (height as int) * (channels as int) > usize::MAX)
                        by (nonlinear_arith)
                        requires
                            (pixels as int) == (width as int) * (height as int),
                            (pixels as int) * (channels as int) > usize::MAX,
                    {
                    }
                }
                return Err(Error::InvalidParameter);
            },
        };
        proof {
            assert((slots as int) == (width as int) * (height as int) * (channels as int))
                by (nonlinear_arith)
                requires
                    (pixels as int) == (width as int) * (height as int),
                    (slots as int) == (pixels as int) * (channels as int),
            {
            }
        }
        if data.len() != slots {
            return Err(Error::InvalidParameter);
        }
        Ok(Image { width, height, channels, data })
    }

    /// The width in pixels.
    pub fn width(&self) -> (w: usize)
        ensures
            w == self.spec_width(),
    {
        self.width
    }

    /// The height in pixels.
    pub fn height(&self) -> (h: usize)
        ensures
            h == self.spec_height(),
    {
        self.height
    }

    /// Channels per pixel.
    pub fn channels(&self) -> (c: usize)
        ensures
            c == self.spec_channels(),
    {
        self.channels
    }

    /// Number of bytes in the buffer.
    pub fn len(&self) -> (n: usize)
        ensures
            n == self@.len(),
    {
        self.data.len()
    }

    /// The byte at buffer offset `i`.
    pub fn byte_at(&self, i: usize) -> (b: u8)
        requires
            i < self@.len(),
        ensures
            b == self@[i as int],
    {
        self.data[i]
    }
}

/// Applies a lookup cube to every pixel: each pixel's RGB channels are
/// replaced by the cube entry of its nearest sample coordinate, and an
/// alpha channel is copied through unchanged. Fails with
/// [`Error::EmptyImage`] exactly when the image has zero width or zero
/// height; the output buffer has the source's geometry.
pub fn correct(img: &Image, lut: &LookupTable) -> (r: Result<Image, Error>)
    requires
        img.wf(),
        lut.wf(),
    ensures
        match r {
            Ok(out) => {
                &&& img.spec_width() > 0 && img.spec_height() > 0
                &&& out.wf()
                &&& out.spec_width() == img.spec_width()
                &&& out.spec_height() == img.spec_height()
                &&& out.spec_channels() == img.spec_channels()
                &&& out@.len() == img@.len()
                &&& forall|p: int|
                    0 <= p < img.spec_width() * img.spec_height() ==> #[trigger] spec_pixel_ok(
                        img@,
                        out@,
                        lut@,
                        lut.spec_level() as int,
                        img.spec_channels() as int,
                        p,
                    )
            },
            Err(e) => e == Error::EmptyImage && (img.spec_width() == 0 || img.spec_height() == 0),
        },
{
    if img.width() == 0 || img.height() == 0 {
        return Err(Error::EmptyImage);
    }
    let ch = img.channels();
    let pixels = img.len() / ch;
    proof {
        assert(pixels == img.spec_width() * img.spec_height() && (img@.len() as int) == (
        pixels as int) * (ch as int)) by (nonlinear_arith)
            requires
                (img@.len() as int) == (img.spec_width() as int) * (img.spec_height() as int) * (
                ch as int),
                (pixels as int) == (img@.len() as int) / (ch as int),
                ch == img.spec_channels(),
                3 <= ch <= 4,
        {
        }
    }
    let level = lut.level();
    let lut_len = lut.len();
    proof {
        assert((level as int) * (level as int) <= 65025) by (nonlinear_arith)
            requires
                level <= 255,
        {
        }
    }
    let n64: u64 = (level as u64) * (level as u64);
    proof {
        assert(n64 == spec_samples_per_channel(level as int) && n64 >= 1 && n64 <= 65025)
            by (nonlinear_arith)
            requires
                n64 == (level as int) * (level as int),
                1 <= level <= 255,
        {
        }
    }
    let n: usize = n64 as usize;

    let mut out: Vec<u8> = Vec::new();
    let mut p: usize = 0;
    while p < pixels
        invariant
            p <= pixels,
            out@.len() == p * ch,
            forall|q: int|
                0 <= q < p ==> #[trigger] spec_pixel_ok(
                    img@,
                    out@,
                    lut@,
                    lut.spec_level() as int,
                    ch as int,
                    q,
                ),
        decreases pixels - p,
    {
        let base = p * ch;
        proof {
            assert(base + ch <= pixels * ch && base == p * ch && (p + 1) * ch == base + ch)
                by (nonlinear_arith)
                requires
                    p < pixels,
                    base == p * ch,
                    3 <= ch,
            {
            }
        }
        let ghost out_before = out@;
        let sr = img.byte_at(base);
        let sg = img.byte_at(base + 1);
        let sb = img.byte_at(base + 2);
        let qr = quantize(n, sr);
        let qg = quantize(n, sg);
        let qb = quantize(n, sb);
        proof {
            lemma_lookup_flat_in_range(level as int, sr as int, sg as int, sb as int);
            assert((qr as int) + (n as int) * (qg as int) + (n as int) * ((n as int) * (qb as int))
                == spec_lookup_flat(level as int, sr as int, sg as int, sb as int) && (n as int)
                * (qg as int) <= lut_len && (n as int) * (qb as int) <= lut_len && (n as int) * ((
            n as int) * (qb as int)) <= lut_len)
                by (nonlinear_arith)
                requires
                    0 <= (qr as int) < (n as int),
                    0 <= (qg as int) < (n as int),
                    0 <= (qb as int) < (n as int),
                    1 <= n <= 65025,
                    (qr as int) == spec_quantize(n as int, sr as int),
                    (qg as int) == spec_quantize(n as int, sg as int),
                    (qb as int) == spec_quantize(n as int, sb as int),
                    spec_cube_total(level as int) == (n as int) * (n as int) * (n as int),
                    (lut_len as int) == spec_cube_total(level as int),
                    spec_lookup_flat(level as int, sr as int, sg as int, sb as int) == (
                    qr as int) + (n as int) * (qg as int) + (n as int) * (n as int) * (qb as int),
            {
            }
        }
        let flat = qr + n * qg + n * (n * qb);
        let entry = lut.get(flat);
        out.push(entry.r);
        out.push(entry.g);
        out.push(entry.b);
        if ch == 4 {
            out.push(img.byte_at(base + 3));
        }
        p = p + 1;
        proof {
            assert(spec_pixel_ok(img@, out@, lut@, lut.spec_level() as int, ch as int, p - 1));
            assert forall|q: int| 0 <= q < p - 1 implies #[trigger] spec_pixel_ok(
                img@,
                out@,
                lut@,
                lut.spec_level() as int,
                ch as int,
                q,
            ) by {
                assert(spec_pixel_ok(img@, out_before, lut@, lut.spec_level() as int, ch as int, q));
                vstd::arithmetic::mul::lemma_mul_inequality(q + 1, p - 1, ch as int);
                assert((q + 1) * (ch as int) == q * (ch as int) + ch) by (nonlinear_arith);
                assert(q * (ch as int) + ch <= out_before.len());
                assert(out@[q * (ch as int)] == out_before[q * (ch as int)]);
                assert(out@[q * (ch as int) + 1] == out_before[q * (ch as int) + 1]);
                assert(out@[q * (ch as int) + 2] == out_before[q * (ch as int) + 2]);
                if ch == 4 {
                    assert(out@[q * (ch as int) + 3] == out_before[q * (ch as int) + 3]);
                }
            }
        }
    }
    proof {
        assert(out@.len() == img@.len());
    }
    match Image::new(img.width(), img.height(), ch, out) {
        Ok(res) => Ok(res),
        Err(_) => vstd::pervasive::unreached(),
    }
}

/// What correction guarantees of pixel `p`: the output RGB channels are
/// the cube entry of the source pixel's nearest sample coordinate, and
/// alpha, if present, is unchanged.
pub open spec fn spec_pixel_ok(
    src: Seq<u8>,
    dst: Seq<u8>,
    lut: Seq<crate::color::Color>,
    level: int,
    ch: int,
    p: int,
) -> bool {
    let base = p * ch;
    let flat = spec_lookup_flat(level, src[base] as int, src[base + 1] as int, src[base + 2] as int);
    &&& dst[base] == lut[flat].r
    &&& dst[base + 1] == lut[flat].g
    &&& dst[base + 2] == lut[flat].b
    &&& (ch == 4 ==> dst[base + 3] == src[base + 3])
}

/// The nearest sample coordinate of one channel value, out of `n`.
fn quantize(n: usize, c: u8) -> (q: usize)
    requires
        1 <= n <= 65025,
    ensures
        q == spec_quantize(n as int, c as int),
        q < n,
{
    proof {
        lemma_quantize_in_range(n as int, c as int);
    }
    if n <= 1 {
        0
    } else {
        proof {
            assert((c as int) * ((n - 1) as int) + 127 <= 255 * 65024 + 127) by (nonlinear_arith)
                requires
                    c <= 255,
                    n <= 65025,
            {
            }
        }
        ((c as usize) * (n - 1) + 127) / 255
    }
}

} // verus!
