//! Descriptor builder: draw one shared random sampling pattern per pipeline
//! run, and evaluate it per keypoint into rotation-invariant bit-packed
//! binary descriptors.  The rotation by a keypoint's orientation is carried
//! out exactly: the offset vector is multiplied by the keypoint's gradient
//! direction and divided by the direction's integer norm, truncating.

use crate::common::{Descriptor, KeyPoint, Orientation};
use crate::math::{
    div_trunc, div_trunc_i128, isqrt_spec, isqrt_u128, lemma_isqrt_bounds,
    lemma_row_index_in_range,
};
use crate::preprocess::clamp_idx;
use crate::rand::{lcg_next, Rand};
use vstd::prelude::*;

verus! {

/// The offset one generator step yields for a patch of half size `half`:
/// the new state reduced into `[-half, half]`.
pub open spec fn offset_of(state: u64, half: int) -> int {
    lcg_next(state) as int % (2 * half + 1) - half
}

/// The sampling pattern drawn from `state`: `n` offset pairs, four generator
/// steps each, in the order `x1, y1, x2, y2`; paired with the state the
/// generator is left in.
pub open spec fn pattern_rec(state: u64, half: int, n: nat) -> (Seq<((i32, i32), (i32, i32))>, u64)
    decreases n,
{
    if n == 0 {
        (Seq::empty(), state)
    } else {
        let s1 = lcg_next(state);
        let s2 = lcg_next(s1);
        let s3 = lcg_next(s2);
        let s4 = lcg_next(s3);
        let pair = (
            (offset_of(state, half) as i32, offset_of(s1, half) as i32),
            (offset_of(s2, half) as i32, offset_of(s3, half) as i32),
        );
        let rest = pattern_rec(s4, half, (n - 1) as nat);
        (seq![pair] + rest.0, rest.1)
    }
}

/// Draw `num_pairs` pairs of two-dimensional offsets uniformly from
/// `[-patch_size/2, patch_size/2]` with the deterministic random source.
/// The pattern is generated once per pipeline run and shared by both frames
/// so that their descriptors stay comparable.
pub fn generate_sampling_pattern(rng: &mut Rand, patch_size: usize, num_pairs: usize) -> (pattern:
    Vec<((i32, i32), (i32, i32))>)
    requires
        patch_size <= i32::MAX,
    ensures
        pattern@ == pattern_rec(old(rng).0, (patch_size / 2) as int, num_pairs as nat).0,
        final(rng).0 == pattern_rec(old(rng).0, (patch_size / 2) as int, num_pairs as nat).1,
        pattern@.len() == num_pairs,
{
    let half = patch_size / 2;
    let span = 2 * half + 1;
    let ghost s0: u64 = rng.0;
    let ghost target: (Seq<((i32, i32), (i32, i32))>, u64) = pattern_rec(
        s0,
        half as int,
        num_pairs as nat,
    );
    let mut pattern: Vec<((i32, i32), (i32, i32))> = Vec::new();
    let mut i: usize = 0;
    while i < num_pairs
        invariant
            i <= num_pairs,
            half == patch_size / 2,
            half <= i32::MAX,
            span == 2 * half + 1,
            pattern@.len() == i,
            target == pattern_rec(s0, half as int, num_pairs as nat),
            pattern@ + pattern_rec(rng.0, half as int, (num_pairs - i) as nat).0 == target.0,
            pattern_rec(rng.0, half as int, (num_pairs - i) as nat).1 == target.1,
        decreases num_pairs - i,
    {
        let ghost state_before = rng.0;
        let ghost pattern_before = pattern@;
        let x1 = draw_offset(rng, half, span);
        let y1 = draw_offset(rng, half, span);
        let x2 = draw_offset(rng, half, span);
        let y2 = draw_offset(rng, half, span);
        pattern.push(((x1, y1), (x2, y2)));
        proof {
            let rest = pattern_rec(state_before, half as int, (num_pairs - i) as nat);
            assert(rest.0 == seq![((x1, y1), (x2, y2))] + pattern_rec(
                rng.0,
                half as int,
                (num_pairs - i - 1) as nat,
            ).0);
            assert(pattern@ =~= pattern_before + seq![((x1, y1), (x2, y2))]);
            assert(pattern@ + pattern_rec(rng.0, half as int, (num_pairs - (i + 1)) as nat).0
                =~= target.0);
        }
        i = i + 1;
    }
    proof {
        assert(pattern@ + pattern_rec(rng.0, half as int, 0nat).0 =~= pattern@);
    }
    pattern
}

/// One uniform draw from `[-half, half]`, where `span == 2 * half + 1`.
fn draw_offset(rng: &mut Rand, half: usize, span: usize) -> (r: i32)
    requires
        half <= i32::MAX,
        span == 2 * half + 1,
    ensures
        final(rng).0 == lcg_next(old(rng).0),
        r == offset_of(old(rng).0, half as int),
{
    let raw = rng.next_max(span);
    (raw as i64 - half as i64) as i32
}

/// The squared length of a gradient direction.
pub open spec fn dir_norm_sq(o: Orientation) -> int {
    o.mx * o.mx + o.my * o.my
}

/// The integer length (floor of the Euclidean norm) of a gradient direction.
pub open spec fn dir_norm(o: Orientation) -> int {
    isqrt_spec(dir_norm_sq(o) as nat) as int
}

/// The x-coordinate of the pattern offset `(dx, dy)` rotated by the angle of
/// direction `o`: multiplication by the unit vector of `o` in integer
/// arithmetic, truncating toward zero.  A zero direction rotates nothing.
pub open spec fn rotate_x(dx: int, dy: int, o: Orientation) -> int {
    if dir_norm(o) == 0 {
        dx
    } else {
        div_trunc(dx * o.mx - dy * o.my, dir_norm(o))
    }
}

/// The y-coordinate of the rotated pattern offset.
pub open spec fn rotate_y(dx: int, dy: int, o: Orientation) -> int {
    if dir_norm(o) == 0 {
        dy
    } else {
        div_trunc(dx * o.my + dy * o.mx, dir_norm(o))
    }
}

/// Rotate the offset `(dx, dy)` by the angle a keypoint's gradient direction
/// makes with the x-axis.
pub fn rotate_point(dx: i32, dy: i32, orientation: Orientation) -> (r: (i128, i128))
    ensures
        r.0 == rotate_x(dx as int, dy as int, orientation),
        r.1 == rotate_y(dx as int, dy as int, orientation),
        -0x1_0000_0000_0000_0000 <= r.0 <= 0x1_0000_0000_0000_0000,
        -0x1_0000_0000_0000_0000 <= r.1 <= 0x1_0000_0000_0000_0000,
{
    let mx = orientation.mx as i128;
    let my = orientation.my as i128;
    proof {
        assert(mx * mx >= 0 && my * my >= 0 && mx * mx + my * my
            <= 0x8000_0000_0000_0000) by (nonlinear_arith)
            requires
                -0x8000_0000 <= mx <= 0x8000_0000,
                -0x8000_0000 <= my <= 0x8000_0000,
        ;
    }
    let nsq = (mx * mx + my * my) as u128;
    let r = isqrt_u128(nsq);
    proof {
        lemma_isqrt_bounds(nsq as nat);
        assert(r <= 0x1_0000_0000) by (nonlinear_arith)
            requires
                r as int * r as int <= nsq,
                nsq <= 0x8000_0000_0000_0000,
                r >= 0,
        ;
        if r == 0 {
            assert(nsq < (isqrt_spec(nsq as nat) + 1) * (isqrt_spec(nsq as nat) + 1));
            assert((isqrt_spec(nsq as nat) + 1) * (isqrt_spec(nsq as nat) + 1) == 1) by (
            nonlinear_arith)
                requires
                    isqrt_spec(nsq as nat) == 0,
            ;
            assert(mx == 0 && my == 0) by (nonlinear_arith)
                requires
                    mx * mx + my * my == 0,
            ;
        }
    }
    if r == 0 {
        (dx as i128, dy as i128)
    } else {
        proof {
            assert(-0x8000_0000_0000_0000 <= dx as i128 * mx <= 0x8000_0000_0000_0000
                && -0x8000_0000_0000_0000 <= dy as i128 * my <= 0x8000_0000_0000_0000
                && -0x8000_0000_0000_0000 <= dx as i128 * my <= 0x8000_0000_0000_0000
                && -0x8000_0000_0000_0000 <= dy as i128 * mx <= 0x8000_0000_0000_0000) by (
            nonlinear_arith)
                requires
                    -0x8000_0000 <= mx <= 0x8000_0000,
                    -0x8000_0000 <= my <= 0x8000_0000,
                    -0x8000_0000 <= dx as i128 <= 0x8000_0000,
                    -0x8000_0000 <= dy as i128 <= 0x8000_0000,
            ;
        }
        let numx = dx as i128 * mx - dy as i128 * my;
        let numy = dx as i128 * my + dy as i128 * mx;
        let rx = div_trunc_i128(numx, r as i128);
        let ry = div_trunc_i128(numy, r as i128);
        (rx, ry)
    }
}

/// The clamped x-coordinate at which pattern offset `(dx, dy)`, rotated by
/// the keypoint's orientation and translated to the keypoint, samples the
/// image.
pub open spec fn sample_x(kp: KeyPoint, dx: int, dy: int, width: int) -> int {
    clamp_idx(kp.x + rotate_x(dx, dy, kp.orientation), width - 1)
}

/// The clamped y-coordinate of the rotated, translated pattern offset.
pub open spec fn sample_y(kp: KeyPoint, dx: int, dy: int, height: int) -> int {
    clamp_idx(kp.y + rotate_y(dx, dy, kp.orientation), height - 1)
}

/// The descriptor bit of one offset pair: whether the intensity at the
/// first rotated sample strictly exceeds the intensity at the second.
pub open spec fn descriptor_bit(
    img: Seq<u8>,
    width: int,
    height: int,
    kp: KeyPoint,
    pair: ((i32, i32), (i32, i32)),
) -> bool {
    let x1 = sample_x(kp, pair.0.0 as int, pair.0.1 as int, width);
    let y1 = sample_y(kp, pair.0.0 as int, pair.0.1 as int, height);
    let x2 = sample_x(kp, pair.1.0 as int, pair.1.1 as int, width);
    let y2 = sample_y(kp, pair.1.0 as int, pair.1.1 as int, height);
    img[y1 * width + x1] > img[y2 * width + x2]
}

/// The weight of bit `k` of a byte, least-significant bit first.
pub open spec fn bit_weight_spec(k: int) -> int {
    if k == 0 {
        1
    } else if k == 1 {
        2
    } else if k == 2 {
        4
    } else if k == 3 {
        8
    } else if k == 4 {
        16
    } else if k == 5 {
        32
    } else if k == 6 {
        64
    } else {
        128
    }
}

/// The value of the first `m` bits of descriptor byte `b`: the sum of the
/// weights of the pattern pairs `8 b + k`, `k < m`, whose comparison came
/// out true.  Pattern indices past the end contribute nothing, which models
/// the zero padding of a trailing partial byte.
pub open spec fn byte_partial(
    img: Seq<u8>,
    width: int,
    height: int,
    kp: KeyPoint,
    pattern: Seq<((i32, i32), (i32, i32))>,
    b: int,
    m: int,
) -> int
    decreases m,
{
    if m <= 0 {
        0
    } else {
        byte_partial(img, width, height, kp, pattern, b, m - 1) + (if 8 * b + (m - 1)
            < pattern.len() && descriptor_bit(img, width, height, kp, pattern[8 * b + (m - 1)]) {
            bit_weight_spec(m - 1)
        } else {
            0
        })
    }
}

/// Descriptor byte `b`: all eight bits packed least-significant-first.
pub open spec fn descriptor_byte(
    img: Seq<u8>,
    width: int,
    height: int,
    kp: KeyPoint,
    pattern: Seq<((i32, i32), (i32, i32))>,
    b: int,
) -> u8 {
    byte_partial(img, width, height, kp, pattern, b, 8) as u8
}

/// The whole descriptor of one keypoint: `ceil(pattern.len() / 8)` bytes.
pub open spec fn descriptor_spec(
    img: Seq<u8>,
    width: int,
    height: int,
    kp: KeyPoint,
    pattern: Seq<((i32, i32), (i32, i32))>,
) -> Seq<u8> {
    Seq::new(
        (((pattern.len() + 7) as int) / 8) as nat,
        |b: int| descriptor_byte(img, width, height, kp, pattern, b),
    )
}

/// The first `m` bits of a byte sum to less than `2^m`.
proof fn lemma_byte_partial_bound(
    img: Seq<u8>,
    width: int,
    height: int,
    kp: KeyPoint,
    pattern: Seq<((i32, i32), (i32, i32))>,
    b: int,
    m: int,
)
    requires
        0 <= m <= 8,
    ensures
        0 <= byte_partial(img, width, height, kp, pattern, b, m) < bit_weight_spec(m - 1) * 2,
    decreases m,
{
    if m > 0 {
        lemma_byte_partial_bound(img, width, height, kp, pattern, b, m - 1);
    }
}

/// Bits whose pattern index lies past the end of the pattern contribute
/// nothing: a partial final byte equals the full zero-padded byte.
proof fn lemma_byte_partial_pad(
    img: Seq<u8>,
    width: int,
    height: int,
    kp: KeyPoint,
    pattern: Seq<((i32, i32), (i32, i32))>,
    b: int,
    m: int,
)
    requires
        0 <= m <= 8,
        8 * b + m >= pattern.len(),
    ensures
        byte_partial(img, width, height, kp, pattern, b, 8) == byte_partial(
            img,
            width,
            height,
            kp,
            pattern,
            b,
            m,
        ),
    decreases 8 - m,
{
    if m < 8 {
        lemma_byte_partial_pad(img, width, height, kp, pattern, b, m + 1);
    }
}

/// The weight of descriptor bit `bit_index` within its byte.
fn bit_weight(bit_index: usize) -> (r: u8)
    requires
        bit_index < 8,
    ensures
        r == bit_weight_spec(bit_index as int),
{
    match bit_index {
        0 => 1,
        1 => 2,
        2 => 4,
        3 => 8,
        4 => 16,
        5 => 32,
        6 => 64,
        _ => 128,
    }
}

/// Clamp the sum of a keypoint coordinate and a rotated offset into
/// `[0, limit - 1]`.
fn clamp_sample(base: usize, offset: i128, limit: usize) -> (r: usize)
    requires
        1 <= limit,
        base < limit,
        -0x1_0000_0000_0000_0000 <= offset <= 0x1_0000_0000_0000_0000,
    ensures
        r == clamp_idx(base + offset, limit - 1),
        r < limit,
{
    let c = base as i128 + offset;
    if c < 0 {
        0
    } else if c > (limit - 1) as i128 {
        limit - 1
    } else {
        c as usize
    }
}

/// Build the descriptor of one keypoint: for every pattern pair, rotate both
/// offsets by the keypoint's orientation, translate them to the keypoint,
/// clamp into the image, compare the two sampled intensities, and pack the
/// comparison bits least-significant-first into bytes.  A trailing partial
/// byte is zero-padded in its unused high bits.
#[verifier::rlimit(100)]
pub fn compute_descriptor(
    image: &[u8],
    width: usize,
    height: usize,
    keypoint: &KeyPoint,
    sampling_pattern: &Vec<((i32, i32), (i32, i32))>,
) -> (descriptor: Descriptor)
    requires
        image@.len() == width * height,
        1 <= width,
        1 <= height,
        keypoint.x < width,
        keypoint.y < height,
    ensures
        descriptor.0@ == descriptor_spec(
            image@,
            width as int,
            height as int,
            *keypoint,
            sampling_pattern@,
        ),
{
    let _buffer_len = image.len();
    let n = sampling_pattern.len();
    let mut bytes: Vec<u8> = Vec::new();
    let mut current_byte: u8 = 0;
    let mut bit_index: usize = 0;
    let mut i: usize = 0;
    while i < n
        invariant
            i <= n,
            n == sampling_pattern@.len(),
            image@.len() == width * height,
            width * height <= usize::MAX,
            1 <= width,
            1 <= height,
            keypoint.x < width,
            keypoint.y < height,
            bit_index == i % 8,
            bytes@.len() == i / 8,
            forall|b: int|
                0 <= b < i / 8 ==> bytes@[b] == descriptor_byte(
                    image@,
                    width as int,
                    height as int,
                    *keypoint,
                    sampling_pattern@,
                    b,
                ),
            current_byte == byte_partial(
                image@,
                width as int,
                height as int,
                *keypoint,
                sampling_pattern@,
                i as int / 8,
                (i % 8) as int,
            ),
        decreases n - i,
    {
        let pair = sampling_pattern[i];
        let (rx1, ry1) = rotate_point(pair.0.0, pair.0.1, keypoint.orientation);
        let (rx2, ry2) = rotate_point(pair.1.0, pair.1.1, keypoint.orientation);
        let x1 = clamp_sample(keypoint.x, rx1, width);
        let y1 = clamp_sample(keypoint.y, ry1, height);
        let x2 = clamp_sample(keypoint.x, rx2, width);
        let y2 = clamp_sample(keypoint.y, ry2, height);
        proof {
            lemma_row_index_in_range(width as int, height as int, x1 as int, y1 as int);
            lemma_row_index_in_range(width as int, height as int, x2 as int, y2 as int);
            lemma_byte_partial_bound(
                image@,
                width as int,
                height as int,
                *keypoint,
                sampling_pattern@,
                i as int / 8,
                (i % 8) as int,
            );
        }
        let intensity1 = image[y1 * width + x1];
        let intensity2 = image[x2 + y2 * width];
        if intensity1 > intensity2 {
            let w = bit_weight(bit_index);
            current_byte = current_byte + w;
        }
        proof {
            assert(current_byte == byte_partial(
                image@,
                width as int,
                height as int,
                *keypoint,
                sampling_pattern@,
                i as int / 8,
                (i % 8) as int + 1,
            ));
            assert((i + 1) as int / 8 == if i % 8 == 7 {
                i as int / 8 + 1
            } else {
                i as int / 8
            }) by {
                vstd::arithmetic::div_mod::lemma_fundamental_div_mod(i as int, 8);
                if i % 8 == 7 {
                    vstd::arithmetic::div_mod::lemma_fundamental_div_mod_converse(
                        i as int + 1,
                        8,
                        i as int / 8 + 1,
                        0,
                    );
                } else {
                    vstd::arithmetic::div_mod::lemma_fundamental_div_mod_converse(
                        i as int + 1,
                        8,
                        i as int / 8,
                        i as int % 8 + 1,
                    );
                }
            }
        }
        bit_index = bit_index + 1;
        if bit_index == 8 {
            bytes.push(current_byte);
            current_byte = 0;
            bit_index = 0;
        }
        i = i + 1;
    }
    if bit_index > 0 {
        proof {
            lemma_byte_partial_pad(
                image@,
                width as int,
                height as int,
                *keypoint,
                sampling_pattern@,
                n as int / 8,
                (n % 8) as int,
            );
        }
        bytes.push(current_byte);
    }
    proof {
        vstd::arithmetic::div_mod::lemma_fundamental_div_mod(n as int, 8);
        if n % 8 == 0 {
            vstd::arithmetic::div_mod::lemma_fundamental_div_mod_converse(
                n as int + 7,
                8,
                n as int / 8,
                7,
            );
        } else {
            vstd::arithmetic::div_mod::lemma_fundamental_div_mod_converse(
                n as int + 7,
                8,
                n as int / 8 + 1,
                n as int % 8 - 1,
            );
        }
        assert(bytes@ =~= descriptor_spec(
            image@,
            width as int,
            height as int,
            *keypoint,
            sampling_pattern@,
        ));
    }
    Descriptor(bytes)
}

/// Build one descriptor per keypoint, all against the same shared sampling
/// pattern.
pub fn compute_brief_descriptors(
    image: &[u8],
    width: usize,
    height: usize,
    keypoints: &Vec<KeyPoint>,
    sampling_pattern: &Vec<((i32, i32), (i32, i32))>,
) -> (descriptors: Vec<Descriptor>)
    requires
        image@.len() == width * height,
        1 <= width,
        1 <= height,
        forall|i: int|
            0 <= i < keypoints@.len() ==> (#[trigger] keypoints@[i]).x < width && keypoints@[i].y
                < height,
    ensures
        descriptors@.len() == keypoints@.len(),
        forall|i: int|
            0 <= i < keypoints@.len() ==> (#[trigger] descriptors@[i]).0@ == descriptor_spec(
                image@,
                width as int,
                height as int,
                keypoints@[i],
                sampling_pattern@,
            ),
{
    let mut descriptors: Vec<Descriptor> = Vec::new();
    let mut i: usize = 0;
    while i < keypoints.len()
        invariant
            i <= keypoints@.len(),
            image@.len() == width * height,
            1 <= width,
            1 <= height,
            forall|j: int|
                0 <= j < keypoints@.len() ==> (#[trigger] keypoints@[j]).x < width
                    && keypoints@[j].y < height,
            descriptors@.len() == i,
            forall|j: int|
                0 <= j < i ==> (#[trigger] descriptors@[j]).0@ == descriptor_spec(
                    image@,
                    width as int,
                    height as int,
                    keypoints@[j],
                    sampling_pattern@,
                ),
        decreases keypoints@.len() - i,
    {
        let kp = keypoints[i];
        let d = compute_descriptor(image, width, height, &kp, sampling_pattern);
        descriptors.push(d);
        i = i + 1;
    }
    descriptors
}

} // verus!
