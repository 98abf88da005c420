//! Pipeline orchestrator: owns the two input frames, the configuration and
//! the per-run random source, and sequences preprocessing, detection,
//! description and matching.  The remaining stages — essential-matrix
//! estimation and pose decomposition — consume the matches this module
//! produces, through the scoring and selection functions of the essential
//! and decompose modules.

use crate::common::{Descriptor, Image, KeyPoint, Orientation, PipelineError};
use crate::descriptor::{
    compute_brief_descriptors, descriptor_spec, generate_sampling_pattern, pattern_rec,
};
use crate::detect::{
    compute_orientations, corner_at, fast_keypoints, in_margin, moment_x, moment_y,
};
use crate::matching::{length_mismatch, match_features, matches_spec};
use crate::preprocess::{blur_pixel, greyscale_gaussian_blur, luma, rgb_to_grayscale};
use crate::rand::Rand;
use vstd::arithmetic::div_mod::lemma_fundamental_div_mod;
use vstd::arithmetic::mul::{lemma_mul_inequality, lemma_mul_is_commutative};
use vstd::prelude::*;

verus! {

/// The grayscale conversion of a four-channel buffer.
pub open spec fn gray_seq(data: Seq<u8>, width: int, height: int) -> Seq<u8> {
    Seq::new((width * height) as nat, |p: int| luma(data[4 * p], data[4 * p + 1], data[4 * p + 2]) as u8)
}

/// The blurred single-channel buffer of a frame: grayscale conversion
/// followed by the five-tap Gaussian blur.
pub open spec fn preprocessed(image: Image) -> Seq<u8> {
    let w = image.width as int;
    let h = image.height as int;
    let gray = gray_seq(image.data@, w, h);
    Seq::new((w * h) as nat, |p: int| blur_pixel(gray, w, h, p % w, p / w) as u8)
}

/// The frame has a consistent four-channel buffer and is large enough for
/// the detector's three-pixel margin.
pub open spec fn dimension_ok(image: Image) -> bool {
    &&& image.data@.len() == image.width * image.height * 4
    &&& image.width >= 7
    &&& image.height >= 7
}

/// The keypoint the detector produces at `(x, y)` of a blurred frame.
pub open spec fn oriented_keypoint(blurred: Seq<u8>, width: int, x: int, y: int) -> KeyPoint {
    KeyPoint {
        x: x as usize,
        y: y as usize,
        orientation: Orientation {
            mx: moment_x(blurred, width, x, y) as i32,
            my: moment_y(blurred, width, x, y) as i32,
        },
    }
}

/// What `compute_features` promises of one frame's artifacts: the keypoints
/// are exactly the detected corners of the preprocessed frame in row-major
/// order, each carrying its gradient direction, and each descriptor is the
/// bit-packed comparison pattern of its keypoint.
pub open spec fn features_ok(
    image: Image,
    threshold: u8,
    pattern: Seq<((i32, i32), (i32, i32))>,
    kps: Seq<KeyPoint>,
    descs: Seq<Descriptor>,
) -> bool {
    let w = image.width as int;
    let h = image.height as int;
    let blurred = preprocessed(image);
    &&& kps.len() == descs.len()
    &&& forall|i: int|
        0 <= i < kps.len() ==> {
            let kp = #[trigger] kps[i];
            &&& in_margin(w, h, kp.x as int, kp.y as int)
            &&& corner_at(blurred, w, kp.x as int, kp.y as int, threshold)
            &&& kp == oriented_keypoint(blurred, w, kp.x as int, kp.y as int)
        }
    &&& forall|x: int, y: int|
        in_margin(w, h, x, y) && corner_at(blurred, w, x, y, threshold) ==> kps.contains(
            oriented_keypoint(blurred, w, x, y),
        )
    &&& forall|i: int, j: int|
        0 <= i < j < kps.len() ==> (#[trigger] kps[i]).y < (#[trigger] kps[j]).y || (kps[i].y
            == kps[j].y && kps[i].x < kps[j].x)
    &&& forall|i: int|
        0 <= i < descs.len() ==> (#[trigger] descs[i]).0@ == descriptor_spec(
            blurred,
            w,
            h,
            kps[i],
            pattern,
        )
}

/// Detect, orient and describe the features of one frame: validate the
/// frame's dimensions, convert to grayscale, blur, detect corners, compute
/// their gradient directions, and build one descriptor per keypoint against
/// the shared sampling pattern.  Returns the keypoints, the descriptors and
/// the blurred buffer.
pub fn compute_features(
    image: &Image,
    threshold: u8,
    sampling_pattern: &Vec<((i32, i32), (i32, i32))>,
) -> (r: Result<(Vec<KeyPoint>, Vec<Descriptor>, Vec<u8>), PipelineError>)
    ensures
        r is Err <==> !dimension_ok(*image),
        r is Err ==> r == Result::<(Vec<KeyPoint>, Vec<Descriptor>, Vec<u8>), PipelineError>::Err(
            PipelineError::DimensionError,
        ),
        r matches Ok((kps, descs, blurred)) ==> {
            &&& blurred@ == preprocessed(*image)
            &&& features_ok(*image, threshold, sampling_pattern@, kps@, descs@)
        },
{
    let width = image.width;
    let height = image.height;
    let data_len = image.data.len();
    if width < 7 || height < 7 {
        return Err(PipelineError::DimensionError);
    }
    let expected = match width.checked_mul(height) {
        Some(np) => match np.checked_mul(4) {
            Some(total) => total,
            None => {
                return Err(PipelineError::DimensionError);
            },
        },
        None => {
            return Err(PipelineError::DimensionError);
        },
    };
    if data_len != expected {
        return Err(PipelineError::DimensionError);
    }

    let gray = rgb_to_grayscale(image.data.as_slice(), width, height);
    let blurred = greyscale_gaussian_blur(gray.as_slice(), width, height);
    proof {
        assert(gray@ =~= gray_seq(image.data@, width as int, height as int));
        assert forall|p: int| 0 <= p < width * height implies blurred@[p] == preprocessed(
            *image,
        )[p] by {
            let w = width as int;
            let x = p % w;
            let y = p / w;
            vstd::arithmetic::div_mod::lemma_mod_division_less_than_divisor(p, w);
            lemma_fundamental_div_mod(p, w);
            vstd::arithmetic::div_mod::lemma_div_pos_is_pos(p, w);
            if y >= height {
                lemma_mul_inequality(height as int, y, w);
                lemma_mul_is_commutative(height as int, w);
                lemma_mul_is_commutative(y, w);
            }
            lemma_mul_is_commutative(y, w);
        }
        assert(blurred@ =~= preprocessed(*image));
    }
    let coords = fast_keypoints(blurred.as_slice(), width, height, threshold);
    proof {
        assert forall|i: int| 0 <= i < coords@.len() implies crate::detect::orientable(
            #[trigger] coords@[i],
            width as int,
            blurred@.len() as int,
        ) by {
            let y = coords@[i].1 as int;
            lemma_mul_inequality(y + 4, height as int, width as int);
            lemma_mul_is_commutative(height as int, width as int);
        }
    }
    let kps = compute_orientations(blurred.as_slice(), width, &coords);
    let descs = compute_brief_descriptors(blurred.as_slice(), width, height, &kps, sampling_pattern);
    proof {
        let w = width as int;
        let h = height as int;
        let blv = blurred@;
        assert forall|x: int, y: int|
            in_margin(w, h, x, y) && corner_at(blv, w, x, y, threshold) implies kps@.contains(
            oriented_keypoint(blv, w, x, y),
        ) by {
            assert(coords@.contains((x as usize, y as usize)));
            let i = choose|i: int|
                0 <= i < coords@.len() && coords@[i] == (x as usize, y as usize);
            assert(kps@[i] == oriented_keypoint(blv, w, x, y));
        }
        assert forall|i: int, j: int| 0 <= i < j < kps@.len() implies (kps@[i].y < kps@[j].y || (
        kps@[i].y == kps@[j].y && kps@[i].x < kps@[j].x)) by {
            assert(crate::detect::row_major_lt(coords@[i], coords@[j]));
        }
    }
    Ok((kps, descs, blurred))
}

/// One pipeline run: the two frames, the stage configuration, and the
/// deterministic random source that feeds pattern generation and RANSAC.
pub struct Slam {
    pub image_a: Image,
    pub image_b: Image,
    pub random: Rand,
    pub threshold: u8,
    pub patch_size: usize,
    pub num_pairs: usize,
    pub max_hamming_distance: usize,
    pub essential_num_iterations: usize,
    pub essential_threshold_fp: i64,
}

/// The fixed seed every run starts from, for reproducibility.
pub const DEFAULT_SEED: u64 = 2523523;

/// The default epipolar inlier threshold, 0.01, in `FP_ONE` units.
pub const DEFAULT_ESSENTIAL_THRESHOLD_FP: i64 = 10486;

impl Slam {
    /// Begin a run over two frames with the default configuration.
    pub fn new(image_a: Image, image_b: Image) -> (s: Slam)
        ensures
            s.image_a == image_a,
            s.image_b == image_b,
            s.random.0 == DEFAULT_SEED,
            s.threshold == 30,
            s.patch_size == 100,
            s.num_pairs == 500,
            s.max_hamming_distance == 300,
            s.essential_num_iterations == 1000,
            s.essential_threshold_fp == DEFAULT_ESSENTIAL_THRESHOLD_FP,
    {
        let random = Rand::new_with_seed(DEFAULT_SEED);
        Slam {
            image_a,
            image_b,
            random,
            threshold: 30,
            patch_size: 100,
            num_pairs: 500,
            max_hamming_distance: 300,
            essential_num_iterations: 1000,
            essential_threshold_fp: DEFAULT_ESSENTIAL_THRESHOLD_FP,
        }
    }

    /// Run stages one to four of the pipeline: draw the shared sampling
    /// pattern, compute each frame's features from that frame's own
    /// keypoints, and match them.  Returns the matched pairs and the
    /// per-frame artifacts (with the blurred buffer kept for frame A only);
    /// the matches feed the essential-matrix stage.
    pub fn compute_matches(&mut self) -> (r: Result<
        (
            Vec<(KeyPoint, KeyPoint)>,
            (Vec<KeyPoint>, Vec<Descriptor>, Vec<u8>),
            (Vec<KeyPoint>, Vec<Descriptor>),
        ),
        PipelineError,
    >)
        requires
            old(self).patch_size <= i32::MAX,
            old(self).num_pairs <= usize::MAX - 7,
        ensures
            final(self).image_a == old(self).image_a,
            final(self).image_b == old(self).image_b,
            final(self).threshold == old(self).threshold,
            final(self).patch_size == old(self).patch_size,
            final(self).num_pairs == old(self).num_pairs,
            final(self).max_hamming_distance == old(self).max_hamming_distance,
            final(self).essential_num_iterations == old(self).essential_num_iterations,
            final(self).essential_threshold_fp == old(self).essential_threshold_fp,
            final(self).random.0 == pattern_rec(
                old(self).random.0,
                (old(self).patch_size / 2) as int,
                old(self).num_pairs as nat,
            ).1,
            r is Err <==> !dimension_ok(old(self).image_a) || !dimension_ok(old(self).image_b),
            r is Err ==> r == Result::<
                (
                    Vec<(KeyPoint, KeyPoint)>,
                    (Vec<KeyPoint>, Vec<Descriptor>, Vec<u8>),
                    (Vec<KeyPoint>, Vec<Descriptor>),
                ),
                PipelineError,
            >::Err(PipelineError::DimensionError),
            r matches Ok((matches, fa, fb)) ==> {
                let pattern = pattern_rec(
                    old(self).random.0,
                    (old(self).patch_size / 2) as int,
                    old(self).num_pairs as nat,
                ).0;
                &&& fa.2@ == preprocessed(old(self).image_a)
                &&& features_ok(old(self).image_a, old(self).threshold, pattern, fa.0@, fa.1@)
                &&& features_ok(old(self).image_b, old(self).threshold, pattern, fb.0@, fb.1@)
                &&& matches@ == matches_spec(
                    fa.0@,
                    fa.1@,
                    fb.0@,
                    fb.1@,
                    old(self).max_hamming_distance as int,
                )
            },
    {
        let pattern = generate_sampling_pattern(&mut self.random, self.patch_size, self.num_pairs);
        let fa = match compute_features(&self.image_a, self.threshold, &pattern) {
            Ok(v) => v,
            Err(e) => {
                return Err(e);
            },
        };
        let fb = match compute_features(&self.image_b, self.threshold, &pattern) {
            Ok(v) => v,
            Err(e) => {
                return Err(e);
            },
        };
        proof {
            assert forall|i: int|
                0 <= i < fa.1@.len() implies 8 * (#[trigger] fa.1@[i]).0@.len()
                <= usize::MAX by {
                assert(fa.1@[i].0@.len() == (pattern@.len() + 7) as int / 8);
                lemma_fundamental_div_mod(pattern@.len() as int + 7, 8);
            }
            assert forall|i: int, j: int|
                0 <= i < fa.1@.len() && 0 <= j < fb.1@.len() implies (#[trigger] fa.1@[i]).0@.len()
                == (#[trigger] fb.1@[j]).0@.len() by {}
        }
        let matches = match match_features(
            &fa.0,
            &fa.1,
            &fb.0,
            &fb.1,
            self.max_hamming_distance,
        ) {
            Ok(m) => m,
            Err(e) => {
                proof {
                    assert(!length_mismatch(fa.1@, fb.1@));
                    assert(false);
                }
                return Err(e);
            },
        };
        Ok((matches, fa, (fb.0, fb.1)))
    }
}

} // verus!
