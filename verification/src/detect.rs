//! Feature detector: FAST-style corner detection over a single-channel
//! image, and the intensity-weighted gradient direction of each detected
//! corner.

use crate::common::{KeyPoint, Orientation};
use crate::math::lemma_row_index_in_range;
use vstd::prelude::*;
use vstd::arithmetic::mul::lemma_mul_inequality;

verus! {

/// x-offset of sample `k` of the 12-point spiral ring around a candidate
/// corner.
pub open spec fn spiral_dx(k: int) -> int {
    if k == 0 {
        -3
    } else if k == 1 {
        0
    } else if k == 2 {
        3
    } else if k == 3 {
        0
    } else if k == 4 {
        -1
    } else if k == 5 {
        1
    } else if k == 6 {
        3
    } else if k == 7 {
        3
    } else if k == 8 {
        1
    } else if k == 9 {
        -1
    } else if k == 10 {
        -3
    } else {
        -3
    }
}

/// y-offset of sample `k` of the 12-point spiral ring.
pub open spec fn spiral_dy(k: int) -> int {
    if k == 0 {
        0
    } else if k == 1 {
        3
    } else if k == 2 {
        0
    } else if k == 3 {
        -3
    } else if k == 4 {
        3
    } else if k == 5 {
        3
    } else if k == 6 {
        1
    } else if k == 7 {
        -1
    } else if k == 8 {
        -3
    } else if k == 9 {
        -3
    } else if k == 10 {
        1
    } else {
        -1
    }
}

/// The intensity the detector reads at spiral position `k` around `(x, y)`.
pub open spec fn spiral_sample(img: Seq<u8>, width: int, x: int, y: int, k: int) -> u8 {
    img[(y + spiral_dy(k)) * width + (x + spiral_dx(k))]
}

/// The absolute intensity difference of `pixel` from `center` exceeds
/// `threshold`.
pub open spec fn significant(pixel: u8, center: u8, threshold: u8) -> bool {
    (if pixel >= center {
        pixel - center
    } else {
        center - pixel
    }) > threshold
}

/// The `needed` consecutive ring samples starting at position `s`, indices
/// wrapping around the twelve-sample ring, all differ significantly from
/// the center intensity.
pub open spec fn run_at(center: u8, circle: Seq<u8>, threshold: u8, needed: u8, s: int) -> bool {
    forall|k: int|
        0 <= k < needed ==> significant(#[trigger] circle[(s + k) % 12], center, threshold)
}

/// A ring of twelve samples marks a corner when some cyclic run of `needed`
/// consecutive samples (wrapping from the end of the ring to its start) all
/// differ significantly from the center intensity.
pub open spec fn spiral_corner(center: u8, circle: Seq<u8>, threshold: u8, needed: u8) -> bool {
    exists|s: int| 0 <= s < 12 && #[trigger] run_at(center, circle, threshold, needed, s)
}

/// Whether `pixel` differs from `center` by more than `threshold`.
fn is_significant(pixel: u8, center: u8, threshold: u8) -> (r: bool)
    ensures
        r == significant(pixel, center, threshold),
{
    if pixel >= center {
        pixel - center > threshold
    } else {
        center - pixel > threshold
    }
}

/// Decide whether a ring of twelve spiral samples marks its center as a
/// corner: scan every start position for a cyclic run of `needed`
/// significantly different samples.
pub fn is_corner_in_spiral(
    center_point_intensity: u8,
    circle: &[u8; 12],
    threshold_for_intensity_difference: u8,
    needed_consecutive_intensity_differences: u8,
) -> (r: bool)
    ensures
        r == spiral_corner(
            center_point_intensity,
            circle@,
            threshold_for_intensity_difference,
            needed_consecutive_intensity_differences,
        ),
{
    let needed = needed_consecutive_intensity_differences as usize;
    let mut s: usize = 0;
    while s < 12
        invariant
            s <= 12,
            needed == needed_consecutive_intensity_differences,
            forall|ss: int|
                0 <= ss < s ==> !run_at(
                    center_point_intensity,
                    circle@,
                    threshold_for_intensity_difference,
                    needed_consecutive_intensity_differences,
                    ss,
                ),
        decreases 12 - s,
    {
        let mut k: usize = 0;
        let mut all_significant = true;
        while k < needed
            invariant
                k <= needed,
                s < 12,
                needed == needed_consecutive_intensity_differences,
                all_significant == (forall|kk: int|
                    0 <= kk < k ==> significant(
                        #[trigger] circle@[(s + kk) % 12],
                        center_point_intensity,
                        threshold_for_intensity_difference,
                    )),
            decreases needed - k,
        {
            let idx = (s + k) % 12;
            let sig = is_significant(
                circle[idx],
                center_point_intensity,
                threshold_for_intensity_difference,
            );
            if !sig {
                all_significant = false;
            }
            k = k + 1;
        }
        if all_significant {
            proof {
                assert(run_at(
                    center_point_intensity,
                    circle@,
                    threshold_for_intensity_difference,
                    needed_consecutive_intensity_differences,
                    s as int,
                ));
            }
            return true;
        }
        proof {
            assert(!run_at(
                center_point_intensity,
                circle@,
                threshold_for_intensity_difference,
                needed_consecutive_intensity_differences,
                s as int,
            ));
        }
        s = s + 1;
    }
    false
}

/// Pixel `(x, y)` is a detected corner of a `width * height` image: its
/// spiral ring holds a cyclic run of at least nine samples whose intensity
/// differs from the center by more than `threshold`.
pub open spec fn corner_at(img: Seq<u8>, width: int, x: int, y: int, threshold: u8) -> bool {
    spiral_corner(
        img[y * width + x],
        Seq::new(12, |k: int| spiral_sample(img, width, x, y, k)),
        threshold,
        9,
    )
}

/// `(x, y)` lies at least three pixels inside every border of a
/// `width * height` image, so the whole spiral ring around it is in range.
pub open spec fn in_margin(width: int, height: int, x: int, y: int) -> bool {
    3 <= x < width - 3 && 3 <= y < height - 3
}

/// `a` precedes `b` in row-major scan order.
pub open spec fn row_major_lt(a: (usize, usize), b: (usize, usize)) -> bool {
    a.1 < b.1 || (a.1 == b.1 && a.0 < b.0)
}

/// Scan every pixel with a margin of at least three on all sides and return
/// the coordinates of every detected corner, in row-major scan order.
pub fn fast_keypoints(img: &[u8], width: usize, height: usize, threshold: u8) -> (keypoints: Vec<
    (usize, usize),
>)
    requires
        img@.len() == width * height,
    ensures
        forall|i: int|
            0 <= i < keypoints@.len() ==> in_margin(
                width as int,
                height as int,
                (#[trigger] keypoints@[i]).0 as int,
                keypoints@[i].1 as int,
            ) && corner_at(
                img@,
                width as int,
                keypoints@[i].0 as int,
                keypoints@[i].1 as int,
                threshold,
            ),
        forall|x: int, y: int|
            in_margin(width as int, height as int, x, y) && corner_at(
                img@,
                width as int,
                x,
                y,
                threshold,
            ) ==> keypoints@.contains((x as usize, y as usize)),
        forall|i: int, j: int|
            0 <= i < j < keypoints@.len() ==> row_major_lt(keypoints@[i], keypoints@[j]),
{
    let _buffer_len = img.len();
    let mut keypoints: Vec<(usize, usize)> = Vec::new();
    if width < 7 || height < 7 {
        return keypoints;
    }
    let mut y: usize = 3;
    while y < height - 3
        invariant
            3 <= y <= height - 3,
            7 <= width,
            7 <= height,
            img@.len() == width * height,
            width * height <= usize::MAX,
            forall|i: int|
                0 <= i < keypoints@.len() ==> in_margin(
                    width as int,
                    height as int,
                    (#[trigger] keypoints@[i]).0 as int,
                    keypoints@[i].1 as int,
                ) && corner_at(
                    img@,
                    width as int,
                    keypoints@[i].0 as int,
                    keypoints@[i].1 as int,
                    threshold,
                ),
            forall|xx: int, yy: int|
                in_margin(width as int, height as int, xx, yy) && yy < y && corner_at(
                    img@,
                    width as int,
                    xx,
                    yy,
                    threshold,
                ) ==> keypoints@.contains((xx as usize, yy as usize)),
            forall|i: int|
                0 <= i < keypoints@.len() ==> (#[trigger] keypoints@[i]).1 < y,
            forall|i: int, j: int|
                0 <= i < j < keypoints@.len() ==> row_major_lt(keypoints@[i], keypoints@[j]),
        decreases height - y,
    {
        let mut x: usize = 3;
        while x < width - 3
            invariant
                3 <= x <= width - 3,
                3 <= y < height - 3,
                7 <= width,
                7 <= height,
                img@.len() == width * height,
                width * height <= usize::MAX,
                forall|i: int|
                    0 <= i < keypoints@.len() ==> in_margin(
                        width as int,
                        height as int,
                        (#[trigger] keypoints@[i]).0 as int,
                        keypoints@[i].1 as int,
                    ) && corner_at(
                        img@,
                        width as int,
                        keypoints@[i].0 as int,
                        keypoints@[i].1 as int,
                        threshold,
                    ),
                forall|xx: int, yy: int|
                    in_margin(width as int, height as int, xx, yy) && (yy < y || (yy == y && xx
                        < x)) && corner_at(img@, width as int, xx, yy, threshold)
                        ==> keypoints@.contains((xx as usize, yy as usize)),
                forall|i: int|
                    0 <= i < keypoints@.len() ==> ((#[trigger] keypoints@[i]).1 < y || (
                    keypoints@[i].1 == y && keypoints@[i].0 < x)),
                forall|i: int, j: int|
                    0 <= i < j < keypoints@.len() ==> row_major_lt(keypoints@[i], keypoints@[j]),
            decreases width - x,
        {
            proof {
                lemma_row_index_in_range(width as int, height as int, x as int, y as int);
                lemma_row_index_in_range(width as int, height as int, x as int - 3, y as int);
                lemma_row_index_in_range(width as int, height as int, x as int + 3, y as int);
                lemma_row_index_in_range(width as int, height as int, x as int, y as int - 3);
                lemma_row_index_in_range(width as int, height as int, x as int, y as int + 3);
                lemma_row_index_in_range(width as int, height as int, x as int - 1, y as int + 3);
                lemma_row_index_in_range(width as int, height as int, x as int + 1, y as int + 3);
                lemma_row_index_in_range(width as int, height as int, x as int + 3, y as int + 1);
                lemma_row_index_in_range(width as int, height as int, x as int + 3, y as int - 1);
                lemma_row_index_in_range(width as int, height as int, x as int + 1, y as int - 3);
                lemma_row_index_in_range(width as int, height as int, x as int - 1, y as int - 3);
                lemma_row_index_in_range(width as int, height as int, x as int - 3, y as int + 1);
                lemma_row_index_in_range(width as int, height as int, x as int - 3, y as int - 1);
            }
            let intensity = img[y * width + x];
            let circle: [u8; 12] = [
                img[y * width + (x - 3)],
                img[(y + 3) * width + x],
                img[y * width + (x + 3)],
                img[(y - 3) * width + x],
                img[(y + 3) * width + (x - 1)],
                img[(y + 3) * width + (x + 1)],
                img[(y + 1) * width + (x + 3)],
                img[(y - 1) * width + (x + 3)],
                img[(y - 3) * width + (x + 1)],
                img[(y - 3) * width + (x - 1)],
                img[(y + 1) * width + (x - 3)],
                img[(y - 1) * width + (x - 3)],
            ];
            proof {
                assert(circle@ =~= Seq::new(
                    12,
                    |k: int| spiral_sample(img@, width as int, x as int, y as int, k),
                ));
            }
            let ghost keypoints_before = keypoints@;
            if is_corner_in_spiral(intensity, &circle, threshold, 9) {
                keypoints.push((x, y));
                proof {
                    assert(keypoints@ =~= keypoints_before.push((x, y)));
                    assert(keypoints@.contains((x, y))) by {
                        assert(keypoints@[keypoints@.len() - 1] == (x, y));
                    }
                    assert forall|xx: int, yy: int|
                        in_margin(width as int, height as int, xx, yy) && (yy < y || (yy == y
                            && xx < x + 1)) && corner_at(img@, width as int, xx, yy, threshold)
                            implies keypoints@.contains((xx as usize, yy as usize)) by {
                        if yy < y || xx < x {
                            assert(keypoints_before.contains((xx as usize, yy as usize)));
                            let w = choose|i: int|
                                0 <= i < keypoints_before.len() && keypoints_before[i] == (
                                xx as usize,
                                yy as usize,
                                );
                            assert(keypoints@[w] == (xx as usize, yy as usize));
                        }
                    }
                }
            } else {
                proof {
                    assert forall|xx: int, yy: int|
                        in_margin(width as int, height as int, xx, yy) && (yy < y || (yy == y
                            && xx < x + 1)) && corner_at(img@, width as int, xx, yy, threshold)
                            implies keypoints@.contains((xx as usize, yy as usize)) by {
                        assert(!(xx == x && yy == y));
                    }
                }
            }
            x = x + 1;
        }
        y = y + 1;
    }
    keypoints
}

/// The intensity-weighted x-moment of the 16-sample ring around `(x, y)`:
/// the sum of `intensity * dx` over the ring offsets.
pub open spec fn moment_x(img: Seq<u8>, width: int, x: int, y: int) -> int {
    -1 * img[(y - 3) * width + (x - 1)] + 1 * img[(y - 3) * width + (x + 1)] + -2 * img[(y - 2)
        * width + (x - 2)] + 2 * img[(y - 2) * width + (x + 2)] + -3 * img[(y - 1) * width + (x
        - 3)] + 3 * img[(y - 1) * width + (x + 3)] + -3 * img[y * width + (x - 3)] + 3 * img[y
        * width + (x + 3)] + -3 * img[(y + 1) * width + (x - 3)] + 3 * img[(y + 1) * width + (x
        + 3)] + -2 * img[(y + 2) * width + (x - 2)] + 2 * img[(y + 2) * width + (x + 2)] + -1
        * img[(y + 3) * width + (x - 1)] + 1 * img[(y + 3) * width + (x + 1)]
}

/// The intensity-weighted y-moment of the 16-sample ring around `(x, y)`:
/// the sum of `intensity * dy` over the ring offsets.
pub open spec fn moment_y(img: Seq<u8>, width: int, x: int, y: int) -> int {
    -3 * img[(y - 3) * width + (x - 1)] + -3 * img[(y - 3) * width + x] + -3 * img[(y - 3) * width
        + (x + 1)] + -2 * img[(y - 2) * width + (x - 2)] + -2 * img[(y - 2) * width + (x + 2)] + -1
        * img[(y - 1) * width + (x - 3)] + -1 * img[(y - 1) * width + (x + 3)] + 1 * img[(y + 1)
        * width + (x - 3)] + 1 * img[(y + 1) * width + (x + 3)] + 2 * img[(y + 2) * width + (x
        - 2)] + 2 * img[(y + 2) * width + (x + 2)] + 3 * img[(y + 3) * width + (x - 1)] + 3 * img[(
    y + 3) * width + x] + 3 * img[(y + 3) * width + (x + 1)]
}

/// A keypoint far enough from every border that the whole 16-sample
/// orientation ring, three pixels wide, lies inside the buffer.
pub open spec fn orientable(kp: (usize, usize), width: int, img_len: int) -> bool {
    &&& 3 <= kp.0
    &&& kp.0 + 3 < width
    &&& 3 <= kp.1
    &&& (kp.1 + 4) * width <= img_len
}

/// For each keypoint, accumulate the intensity-weighted gradient moments
/// over the 16-sample ring around it; the moment pair is the dominant
/// gradient direction the descriptor stage rotates by.
#[verifier::rlimit(100)]
pub fn compute_orientations(img: &[u8], width: usize, keypoints: &Vec<(usize, usize)>) -> (r: Vec<
    KeyPoint,
>)
    requires
        forall|i: int|
            0 <= i < keypoints@.len() ==> orientable(
                #[trigger] keypoints@[i],
                width as int,
                img@.len() as int,
            ),
    ensures
        r@.len() == keypoints@.len(),
        forall|i: int|
            0 <= i < keypoints@.len() ==> {
                let kp = keypoints@[i];
                (#[trigger] r@[i]) == KeyPoint {
                    x: kp.0,
                    y: kp.1,
                    orientation: Orientation {
                        mx: moment_x(img@, width as int, kp.0 as int, kp.1 as int) as i32,
                        my: moment_y(img@, width as int, kp.0 as int, kp.1 as int) as i32,
                    },
                }
            },
{
    let img_len = img.len();
    let mut r: Vec<KeyPoint> = Vec::new();
    let mut i: usize = 0;
    while i < keypoints.len()
        invariant
            i <= keypoints@.len(),
            img@.len() == img_len,
            forall|j: int|
                0 <= j < keypoints@.len() ==> orientable(
                    #[trigger] keypoints@[j],
                    width as int,
                    img@.len() as int,
                ),
            r@.len() == i,
            forall|j: int|
                0 <= j < i ==> {
                    let kp = keypoints@[j];
                    (#[trigger] r@[j]) == KeyPoint {
                        x: kp.0,
                        y: kp.1,
                        orientation: Orientation {
                            mx: moment_x(img@, width as int, kp.0 as int, kp.1 as int) as i32,
                            my: moment_y(img@, width as int, kp.0 as int, kp.1 as int) as i32,
                        },
                    }
                },
        decreases keypoints@.len() - i,
    {
        let (x, y) = keypoints[i];
        proof {
            assert(orientable(keypoints@[i as int], width as int, img@.len() as int));
            assert((y + 3) * width + width == (y + 4) * width) by (nonlinear_arith);
            assert(y + 4 <= (y + 4) * width) by (nonlinear_arith)
                requires
                    1 <= width,
                    0 <= y,
            ;
            vstd::arithmetic::mul::lemma_mul_nonnegative(y as int - 3, width as int);
            lemma_mul_inequality(y as int - 3, y as int + 3, width as int);
            lemma_mul_inequality(y as int - 2, y as int + 3, width as int);
            lemma_mul_inequality(y as int - 1, y as int + 3, width as int);
            lemma_mul_inequality(y as int, y as int + 3, width as int);
            lemma_mul_inequality(y as int + 1, y as int + 3, width as int);
            lemma_mul_inequality(y as int + 2, y as int + 3, width as int);
            lemma_mul_inequality(y as int - 3, y as int - 2, width as int);
            lemma_mul_inequality(y as int - 3, y as int - 1, width as int);
            lemma_mul_inequality(y as int - 3, y as int, width as int);
            lemma_mul_inequality(y as int - 3, y as int + 1, width as int);
            lemma_mul_inequality(y as int - 3, y as int + 2, width as int);
        }
        let m3 = (y - 3) * width;
        let m2 = (y - 2) * width;
        let m1 = (y - 1) * width;
        let z0 = y * width;
        let p1 = (y + 1) * width;
        let p2 = (y + 2) * width;
        let p3 = (y + 3) * width;
        let mut mx: i64 = 0;
        let mut my: i64 = 0;

        let v = img[m3 + (x - 1)] as i64;
        mx = mx - v;
        my = my - 3 * v;
        let v = img[m3 + x] as i64;
        my = my - 3 * v;
        let v = img[m3 + (x + 1)] as i64;
        mx = mx + v;
        my = my - 3 * v;
        let v = img[m2 + (x - 2)] as i64;
        mx = mx - 2 * v;
        my = my - 2 * v;
        let v = img[m2 + (x + 2)] as i64;
        mx = mx + 2 * v;
        my = my - 2 * v;
        let v = img[m1 + (x - 3)] as i64;
        mx = mx - 3 * v;
        my = my - v;
        let v = img[m1 + (x + 3)] as i64;
        mx = mx + 3 * v;
        my = my - v;
        let v = img[z0 + (x - 3)] as i64;
        mx = mx - 3 * v;
        let v = img[z0 + (x + 3)] as i64;
        mx = mx + 3 * v;
        let v = img[p1 + (x - 3)] as i64;
        mx = mx - 3 * v;
        my = my + v;
        let v = img[p1 + (x + 3)] as i64;
        mx = mx + 3 * v;
        my = my + v;
        let v = img[p2 + (x - 2)] as i64;
        mx = mx - 2 * v;
        my = my + 2 * v;
        let v = img[p2 + (x + 2)] as i64;
        mx = mx + 2 * v;
        my = my + 2 * v;
        let v = img[p3 + (x - 1)] as i64;
        mx = mx - v;
        my = my + 3 * v;
        let v = img[p3 + x] as i64;
        my = my + 3 * v;
        let v = img[p3 + (x + 1)] as i64;
        mx = mx + v;
        my = my + 3 * v;

        let kp = KeyPoint { x, y, orientation: Orientation { mx: mx as i32, my: my as i32 } };
        r.push(kp);
        i = i + 1;
    }
    r
}

/// A uniform image has no corners: every sample of every spiral ring equals
/// its center, so no intensity difference can exceed any threshold.
pub proof fn lemma_fast_keypoints_uniform(
    img: Seq<u8>,
    width: int,
    height: int,
    v: u8,
    threshold: u8,
    x: int,
    y: int,
)
    requires
        img.len() == width * height,
        forall|i: int| 0 <= i < img.len() ==> img[i] == v,
        in_margin(width, height, x, y),
    ensures
        !corner_at(img, width, x, y, threshold),
{
    lemma_row_index_in_range(width, height, x, y);
    let circle = Seq::new(12, |k: int| spiral_sample(img, width, x, y, k));
    assert forall|k: int| 0 <= k < 12 implies circle[k] == v by {
        lemma_row_index_in_range(width, height, x + spiral_dx(k), y + spiral_dy(k));
    }
    assert(img[y * width + x] == v);
    assert forall|s: int| 0 <= s < 12 implies !(#[trigger] run_at(img[y * width + x], circle, threshold, 9, s)) by {
        assert(0 <= (s + 0) % 12 < 12);
        assert(!significant(circle[(s + 0) % 12], img[y * width + x], threshold));
    }
}

/// On an image with no contrast the detector returns an empty list: any
/// keypoint sequence whose members the detector's contract certifies as
/// corners must be empty.
pub proof fn lemma_fast_keypoints_no_contrast(
    img: Seq<u8>,
    width: int,
    height: int,
    v: u8,
    threshold: u8,
    kps: Seq<(usize, usize)>,
)
    requires
        img.len() == width * height,
        forall|i: int| 0 <= i < img.len() ==> img[i] == v,
        forall|i: int|
            0 <= i < kps.len() ==> in_margin(
                width,
                height,
                (#[trigger] kps[i]).0 as int,
                kps[i].1 as int,
            ) && corner_at(img, width, kps[i].0 as int, kps[i].1 as int, threshold),
    ensures
        kps.len() == 0,
{
    if kps.len() > 0 {
        lemma_fast_keypoints_uniform(
            img,
            width,
            height,
            v,
            threshold,
            kps[0].0 as int,
            kps[0].1 as int,
        );
    }
}

} // verus!
