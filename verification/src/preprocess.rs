//! Preprocessor: RGBA-to-grayscale conversion and a separable Gaussian blur
//! with the fixed five-tap kernel for sigma close to one.  All arithmetic is
//! exact fixed-point: the kernel weights are integers in units of
//! `1 / BLUR_SCALE`, so the blurred value of every pixel is pinned down as an
//! integer expression.

use vstd::prelude::*;
use vstd::arithmetic::div_mod::{
    lemma_div_is_ordered, lemma_fundamental_div_mod_converse, lemma_div_pos_is_pos,
};
use vstd::arithmetic::mul::lemma_mul_inequality;

verus! {

/// Luma of one RGB triple: `0.299 R + 0.587 G + 0.114 B`, carried out over
/// thousandths and truncated.
pub open spec fn luma(r: u8, g: u8, b: u8) -> int {
    (299 * r + 587 * g + 114 * b) / 1000
}

/// The luma of 8-bit channels fits in 8 bits again.
proof fn lemma_luma_bound(r: u8, g: u8, b: u8)
    ensures
        0 <= luma(r, g, b) <= 255,
{
    let s: int = 299 * r + 587 * g + 114 * b;
    assert(s <= 1000 * 255);
    lemma_div_pos_is_pos(s, 1000);
    lemma_div_is_ordered(s, (1000 * 255) as int, 1000);
    assert((1000 * 255) / 1000 == 255);
}

/// Convert an interleaved four-channel (RGBA) buffer to a single-channel
/// grayscale buffer of length `width * height`; the alpha channel is ignored
/// and each output sample is the truncated luma of its pixel.
pub fn rgb_to_grayscale(img: &[u8], width: usize, height: usize) -> (out: Vec<u8>)
    requires
        img@.len() == width * height * 4,
    ensures
        out@.len() == width * height,
        forall|p: int|
            0 <= p < width * height ==> out@[p] == luma(
                img@[4 * p],
                img@[4 * p + 1],
                img@[4 * p + 2],
            ),
{
    let total = img.len() / 4;
    assert(total == width * height);
    assert(4 * total <= usize::MAX);
    let mut out: Vec<u8> = Vec::new();
    let mut p: usize = 0;
    while p < total
        invariant
            p <= total,
            total == width * height,
            img@.len() == 4 * total,
            4 * total <= usize::MAX,
            out@.len() == p,
            forall|q: int|
                0 <= q < p ==> out@[q] == luma(img@[4 * q], img@[4 * q + 1], img@[4 * q + 2]),
        decreases total - p,
    {
        let idx = 4 * p;
        let r = img[idx] as u64;
        let g = img[idx + 1] as u64;
        let b = img[idx + 2] as u64;
        let v = (299 * r + 587 * g + 114 * b) / 1000;
        proof {
            lemma_luma_bound(img@[4 * p as int], img@[4 * p as int + 1], img@[4 * p as int + 2]);
        }
        out.push(v as u8);
        p = p + 1;
    }
    out
}

/// All fixed-point weights are in units of `1 / BLUR_SCALE`.
pub const BLUR_SCALE: u64 = 100_000;

/// Outermost tap of the five-tap Gaussian kernel (0.06136).
pub const BLUR_W0: u64 = 6_136;

/// Second tap of the kernel (0.24477).
pub const BLUR_W1: u64 = 24_477;

/// Center tap of the kernel (0.38774).
pub const BLUR_W2: u64 = 38_774;

/// A pixel value after both passes is in units of `1 / (BLUR_SCALE^2)`; this
/// is half that unit, added before the final division to round to nearest.
pub const BLUR_HALF_UNIT: u64 = 5_000_000_000;

/// Clamp `v` into `[0, hi]` (replicate-border indexing).
pub open spec fn clamp_idx(v: int, hi: int) -> int {
    if v < 0 {
        0
    } else if v > hi {
        hi
    } else {
        v
    }
}

/// The horizontal blur pass at `(x, y)`: the kernel-weighted sum of the row
/// neighbourhood, with out-of-range columns clamped to the row border.
/// The result is in units of `1 / BLUR_SCALE`.
pub open spec fn blur_horiz(img: Seq<u8>, width: int, x: int, y: int) -> int {
    BLUR_W0 * img[y * width + clamp_idx(x - 2, width - 1)] + BLUR_W1 * img[y * width + clamp_idx(
        x - 1,
        width - 1,
    )] + BLUR_W2 * img[y * width + clamp_idx(x, width - 1)] + BLUR_W1 * img[y * width + clamp_idx(
        x + 1,
        width - 1,
    )] + BLUR_W0 * img[y * width + clamp_idx(x + 2, width - 1)]
}

/// The kernel-weighted sum of the horizontal-pass values of the five
/// vertical neighbours of `(x, y)` (rows clamped to the image border), plus
/// the half unit that rounds the final division to nearest.  The sum is in
/// units of `1 / BLUR_SCALE^2`.
pub open spec fn blur_pixel_numerator(
    img: Seq<u8>,
    width: int,
    height: int,
    x: int,
    y: int,
) -> int {
    BLUR_W0 * blur_horiz(img, width, x, clamp_idx(y - 2, height - 1)) + BLUR_W1 * blur_horiz(
        img,
        width,
        x,
        clamp_idx(y - 1, height - 1),
    ) + BLUR_W2 * blur_horiz(img, width, x, clamp_idx(y, height - 1)) + BLUR_W1 * blur_horiz(
        img,
        width,
        x,
        clamp_idx(y + 1, height - 1),
    ) + BLUR_W0 * blur_horiz(img, width, x, clamp_idx(y + 2, height - 1)) + BLUR_HALF_UNIT
}

/// One blurred output sample: the vertical pass over the horizontal-pass
/// values, rounded to the nearest integer.
pub open spec fn blur_pixel(img: Seq<u8>, width: int, height: int, x: int, y: int) -> int {
    blur_pixel_numerator(img, width, height, x, y) / (BLUR_SCALE * BLUR_SCALE)
}

/// A clamped sample of a `width * height` buffer lies inside the buffer.
proof fn lemma_clamped_index_in_range(width: int, height: int, x: int, y: int)
    requires
        1 <= width,
        1 <= height,
        0 <= x <= width - 1,
        0 <= y <= height - 1,
    ensures
        0 <= y * width + x < width * height,
{
    lemma_mul_inequality(y, height - 1, width);
    assert((height - 1) * width + width == height * width) by (nonlinear_arith);
}

/// The horizontal pass of a row of 8-bit samples stays within
/// `[0, 255 * BLUR_SCALE]`.
proof fn lemma_blur_horiz_bound(img: Seq<u8>, width: int, height: int, x: int, y: int)
    requires
        1 <= width,
        1 <= height,
        img.len() == width * height,
        0 <= x <= width - 1,
        0 <= y <= height - 1,
    ensures
        0 <= blur_horiz(img, width, x, y) <= 255 * BLUR_SCALE,
{
    lemma_clamped_index_in_range(width, height, clamp_idx(x - 2, width - 1), y);
    lemma_clamped_index_in_range(width, height, clamp_idx(x - 1, width - 1), y);
    lemma_clamped_index_in_range(width, height, clamp_idx(x, width - 1), y);
    lemma_clamped_index_in_range(width, height, clamp_idx(x + 1, width - 1), y);
    lemma_clamped_index_in_range(width, height, clamp_idx(x + 2, width - 1), y);
}

/// The rounded kernel-weighted combination of five horizontal-pass values.
fn round_kernel(h0: u64, h1: u64, h2: u64, h3: u64, h4: u64) -> (v: u8)
    requires
        h0 <= 255 * BLUR_SCALE,
        h1 <= 255 * BLUR_SCALE,
        h2 <= 255 * BLUR_SCALE,
        h3 <= 255 * BLUR_SCALE,
        h4 <= 255 * BLUR_SCALE,
    ensures
        v == (BLUR_W0 * h0 + BLUR_W1 * h1 + BLUR_W2 * h2 + BLUR_W1 * h3 + BLUR_W0 * h4
            + BLUR_HALF_UNIT) / (BLUR_SCALE * BLUR_SCALE),
{
    let s = BLUR_W0 * h0 + BLUR_W1 * h1 + BLUR_W2 * h2 + BLUR_W1 * h3 + BLUR_W0 * h4
        + BLUR_HALF_UNIT;
    let v = s / (BLUR_SCALE * BLUR_SCALE);
    proof {
        let unit: int = BLUR_SCALE * BLUR_SCALE;
        lemma_div_is_ordered(s as int, 255 * unit + BLUR_HALF_UNIT, unit);
        lemma_fundamental_div_mod_converse(
            255 * unit + BLUR_HALF_UNIT,
            unit,
            255,
            BLUR_HALF_UNIT as int,
        );
    }
    v as u8
}

/// One output sample of the vertical pass: the kernel-weighted sum of five
/// clamped horizontal-pass rows, rounded to nearest.
#[verifier::rlimit(100)]
fn vertical_sample(horiz: &Vec<u64>, img: Ghost<Seq<u8>>, width: usize, height: usize, x: usize, y: usize) -> (v: u8)
    requires
        img@.len() == width * height,
        width * height <= usize::MAX,
        horiz@.len() == width * height,
        forall|xx: int, yy: int|
            0 <= xx < width && 0 <= yy < height ==> horiz@[yy * width + xx] == blur_horiz(
                img@,
                width as int,
                xx,
                yy,
            ),
        x < width,
        y < height,
    ensures
        v == blur_pixel(img@, width as int, height as int, x as int, y as int),
{
    let ym2 = if y >= 2 {
        y - 2
    } else {
        0
    };
    let ym1 = if y >= 1 {
        y - 1
    } else {
        0
    };
    let yp1 = if height - y > 1 {
        y + 1
    } else {
        height - 1
    };
    let yp2 = if height - y > 2 {
        y + 2
    } else {
        height - 1
    };
    proof {
        lemma_clamped_index_in_range(width as int, height as int, x as int, ym2 as int);
        lemma_clamped_index_in_range(width as int, height as int, x as int, ym1 as int);
        lemma_clamped_index_in_range(width as int, height as int, x as int, y as int);
        lemma_clamped_index_in_range(width as int, height as int, x as int, yp1 as int);
        lemma_clamped_index_in_range(width as int, height as int, x as int, yp2 as int);
        lemma_blur_horiz_bound(img@, width as int, height as int, x as int, ym2 as int);
        lemma_blur_horiz_bound(img@, width as int, height as int, x as int, ym1 as int);
        lemma_blur_horiz_bound(img@, width as int, height as int, x as int, y as int);
        lemma_blur_horiz_bound(img@, width as int, height as int, x as int, yp1 as int);
        lemma_blur_horiz_bound(img@, width as int, height as int, x as int, yp2 as int);
    }
    let h0 = horiz[ym2 * width + x];
    let h1 = horiz[ym1 * width + x];
    let h2 = horiz[y * width + x];
    let h3 = horiz[yp1 * width + x];
    let h4 = horiz[yp2 * width + x];
    round_kernel(h0, h1, h2, h3, h4)
}

/// Blur a single-channel image with the separable five-tap Gaussian kernel:
/// one horizontal pass, one vertical pass, replicate-border sampling, and
/// round-to-nearest on the final value of every pixel.
#[verifier::rlimit(100)]
pub fn greyscale_gaussian_blur(img: &[u8], width: usize, height: usize) -> (out: Vec<u8>)
    requires
        img@.len() == width * height,
    ensures
        out@.len() == width * height,
        forall|x: int, y: int|
            0 <= x < width && 0 <= y < height ==> out@[y * width + x] == blur_pixel(
                img@,
                width as int,
                height as int,
                x,
                y,
            ),
{
    let _buffer_len = img.len();
    let mut horiz: Vec<u64> = Vec::new();
    let mut y: usize = 0;
    while y < height
        invariant
            y <= height,
            img@.len() == width * height,
            width * height <= usize::MAX,
            horiz@.len() == y * width,
            forall|xx: int, yy: int|
                0 <= xx < width && 0 <= yy < y ==> horiz@[yy * width + xx] == blur_horiz(
                    img@,
                    width as int,
                    xx,
                    yy,
                ),
        decreases height - y,
    {
        let mut x: usize = 0;
        while x < width
            invariant
                y < height,
                x <= width,
                img@.len() == width * height,
                width * height <= usize::MAX,
                horiz@.len() == y * width + x,
                forall|xx: int, yy: int|
                    0 <= xx < width && 0 <= yy < y ==> horiz@[yy * width + xx] == blur_horiz(
                        img@,
                        width as int,
                        xx,
                        yy,
                    ),
                forall|xx: int|
                    0 <= xx < x ==> horiz@[y * width + xx] == blur_horiz(
                        img@,
                        width as int,
                        xx,
                        y as int,
                    ),
            decreases width - x,
        {
            let xm2 = if x >= 2 {
                x - 2
            } else {
                0
            };
            let xm1 = if x >= 1 {
                x - 1
            } else {
                0
            };
            let xp1 = if width - x > 1 {
                x + 1
            } else {
                width - 1
            };
            let xp2 = if width - x > 2 {
                x + 2
            } else {
                width - 1
            };
            proof {
                lemma_clamped_index_in_range(width as int, height as int, xm2 as int, y as int);
                lemma_clamped_index_in_range(width as int, height as int, xm1 as int, y as int);
                lemma_clamped_index_in_range(width as int, height as int, x as int, y as int);
                lemma_clamped_index_in_range(width as int, height as int, xp1 as int, y as int);
                lemma_clamped_index_in_range(width as int, height as int, xp2 as int, y as int);
            }
            let row = y * width;
            let s = BLUR_W0 * (img[row + xm2] as u64) + BLUR_W1 * (img[row + xm1] as u64) + BLUR_W2
                * (img[row + x] as u64) + BLUR_W1 * (img[row + xp1] as u64) + BLUR_W0 * (img[row
                + xp2] as u64);
            horiz.push(s);
            proof {
                assert(horiz@[y * width + x] == blur_horiz(img@, width as int, x as int, y as int));
                assert forall|xx: int, yy: int|
                    0 <= xx < width && 0 <= yy < y implies horiz@[yy * width + xx] == blur_horiz(
                    img@,
                    width as int,
                    xx,
                    yy,
                ) by {
                    lemma_mul_inequality(yy + 1, y as int, width as int);
                    assert((yy + 1) * width == yy * width + width) by (nonlinear_arith);
                }
            }
            x = x + 1;
        }
        proof {
            assert((y + 1) * width == y * width + width) by (nonlinear_arith);
        }
        y = y + 1;
    }
    proof {
        assert(height * width == width * height) by (nonlinear_arith);
    }

    let mut out: Vec<u8> = Vec::new();
    let mut y: usize = 0;
    while y < height
        invariant
            y <= height,
            img@.len() == width * height,
            width * height <= usize::MAX,
            horiz@.len() == width * height,
            forall|xx: int, yy: int|
                0 <= xx < width && 0 <= yy < height ==> horiz@[yy * width + xx] == blur_horiz(
                    img@,
                    width as int,
                    xx,
                    yy,
                ),
            out@.len() == y * width,
            forall|xx: int, yy: int|
                0 <= xx < width && 0 <= yy < y ==> out@[yy * width + xx] == blur_pixel(
                    img@,
                    width as int,
                    height as int,
                    xx,
                    yy,
                ),
        decreases height - y,
    {
        let mut x: usize = 0;
        while x < width
            invariant
                y < height,
                x <= width,
                img@.len() == width * height,
                width * height <= usize::MAX,
                horiz@.len() == width * height,
                forall|xx: int, yy: int|
                    0 <= xx < width && 0 <= yy < height ==> horiz@[yy * width + xx] == blur_horiz(
                        img@,
                        width as int,
                        xx,
                        yy,
                    ),
                out@.len() == y * width + x,
                forall|xx: int, yy: int|
                    0 <= xx < width && 0 <= yy < y ==> out@[yy * width + xx] == blur_pixel(
                        img@,
                        width as int,
                        height as int,
                        xx,
                        yy,
                    ),
                forall|xx: int|
                    0 <= xx < x ==> out@[y * width + xx] == blur_pixel(
                        img@,
                        width as int,
                        height as int,
                        xx,
                        y as int,
                    ),
            decreases width - x,
        {
            let v = vertical_sample(&horiz, Ghost(img@), width, height, x, y);
            out.push(v);
            proof {
                assert(out@[y * width + x] == blur_pixel(
                    img@,
                    width as int,
                    height as int,
                    x as int,
                    y as int,
                ));
                assert forall|xx: int, yy: int|
                    0 <= xx < width && 0 <= yy < y implies out@[yy * width + xx] == blur_pixel(
                    img@,
                    width as int,
                    height as int,
                    xx,
                    yy,
                ) by {
                    lemma_mul_inequality(yy + 1, y as int, width as int);
                    assert((yy + 1) * width == yy * width + width) by (nonlinear_arith);
                }
            }
            x = x + 1;
        }
        proof {
            assert((y + 1) * width == y * width + width) by (nonlinear_arith);
        }
        y = y + 1;
    }
    out
}

/// Blurring a uniform-intensity image leaves every pixel unchanged: every
/// clamped sample has the same value, the kernel weights sum to `BLUR_SCALE`,
/// and rounding the exact value is the identity.
pub proof fn lemma_blur_uniform(img: Seq<u8>, width: int, height: int, v: u8, x: int, y: int)
    requires
        1 <= width,
        1 <= height,
        img.len() == width * height,
        forall|i: int| 0 <= i < img.len() ==> img[i] == v,
        0 <= x < width,
        0 <= y < height,
    ensures
        blur_pixel(img, width, height, x, y) == v,
{
    assert forall|yy: int| 0 <= yy <= height - 1 implies blur_horiz(img, width, x, yy) == v
        * BLUR_SCALE by {
        lemma_clamped_index_in_range(width, height, clamp_idx(x - 2, width - 1), yy);
        lemma_clamped_index_in_range(width, height, clamp_idx(x - 1, width - 1), yy);
        lemma_clamped_index_in_range(width, height, clamp_idx(x, width - 1), yy);
        lemma_clamped_index_in_range(width, height, clamp_idx(x + 1, width - 1), yy);
        lemma_clamped_index_in_range(width, height, clamp_idx(x + 2, width - 1), yy);
    }
    let unit: int = BLUR_SCALE * BLUR_SCALE;
    assert(blur_pixel_numerator(img, width, height, x, y) == v * unit + BLUR_HALF_UNIT);
    lemma_fundamental_div_mod_converse(
        v * unit + BLUR_HALF_UNIT,
        unit,
        v as int,
        BLUR_HALF_UNIT as int,
    );
}

/// Blurring a one-pixel image returns that pixel unchanged.
pub proof fn lemma_blur_single_pixel(v: u8)
    ensures
        blur_pixel(seq![v], 1, 1, 0, 0) == v,
{
    lemma_blur_uniform(seq![v], 1, 1, v, 0, 0);
}

} // verus!
