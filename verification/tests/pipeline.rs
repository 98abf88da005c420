use visodom::common::{Image, PipelineError};
use visodom::rand::Rand;
use visodom::descriptor::generate_sampling_pattern;
use visodom::slam::{compute_features, Slam};

fn uniform_image(width: usize, height: usize, value: u8) -> Image {
    Image { width, height, data: vec![value; width * height * 4] }
}

#[test]
fn test_compute_features_dimension_error() {
    // A buffer whose length disagrees with the stated dimensions is
    // rejected before any pixel is touched.
    let image = Image { width: 8, height: 8, data: vec![0; 8 * 8 * 4 - 1] };
    let mut rng = Rand::new_with_seed(1);
    let pattern = generate_sampling_pattern(&mut rng, 10, 8);
    let r = compute_features(&image, 30, &pattern);
    assert!(matches!(r, Err(PipelineError::DimensionError)));
}

#[test]
fn test_compute_features_too_small() {
    // Frames without room for the detector's three-pixel margin are
    // rejected as dimension errors.
    let image = uniform_image(6, 6, 10);
    let mut rng = Rand::new_with_seed(1);
    let pattern = generate_sampling_pattern(&mut rng, 10, 8);
    let r = compute_features(&image, 30, &pattern);
    assert!(matches!(r, Err(PipelineError::DimensionError)));
}

#[test]
fn test_compute_features_no_contrast() {
    // An image with no contrast yields no keypoints and no descriptors,
    // but still hands back the preprocessed buffer.
    let image = uniform_image(9, 9, 128);
    let mut rng = Rand::new_with_seed(1);
    let pattern = generate_sampling_pattern(&mut rng, 10, 8);
    let (keypoints, descriptors, blurred) = compute_features(&image, 30, &pattern).unwrap();
    assert_eq!(keypoints.len(), 0);
    assert_eq!(descriptors.len(), 0);
    assert_eq!(blurred, vec![128; 81]);
}

#[test]
fn test_compute_features_single_corner() {
    // A single bright pixel against a uniform background is detected, with
    // a descriptor built for it.
    let mut image = uniform_image(9, 9, 10);
    let center = 4 * (4 * 9 + 4);
    image.data[center] = 200;
    image.data[center + 1] = 200;
    image.data[center + 2] = 200;
    let mut rng = Rand::new_with_seed(2523523);
    let pattern = generate_sampling_pattern(&mut rng, 8, 16);
    let (keypoints, descriptors, _blurred) = compute_features(&image, 20, &pattern).unwrap();
    assert_eq!(keypoints.len(), 1);
    assert_eq!(keypoints[0].x, 4);
    assert_eq!(keypoints[0].y, 4);
    assert_eq!(descriptors.len(), 1);
    assert_eq!(descriptors[0].0.len(), 2);
}

#[test]
fn test_slam_defaults() {
    let s = Slam::new(uniform_image(8, 8, 0), uniform_image(8, 8, 1));
    assert_eq!(s.random.0, 2523523);
    assert_eq!(s.threshold, 30);
    assert_eq!(s.patch_size, 100);
    assert_eq!(s.num_pairs, 500);
    assert_eq!(s.max_hamming_distance, 300);
    assert_eq!(s.essential_num_iterations, 1000);
    assert_eq!(s.essential_threshold_fp, 10486);
}

#[test]
fn test_compute_matches_uniform_frames() {
    // Two featureless frames run the whole front half of the pipeline and
    // produce no matches.
    let mut s = Slam::new(uniform_image(8, 8, 100), uniform_image(8, 8, 100));
    let (matches, frame_a, frame_b) = s.compute_matches().unwrap();
    assert_eq!(matches.len(), 0);
    assert_eq!(frame_a.0.len(), 0);
    assert_eq!(frame_a.1.len(), 0);
    assert_eq!(frame_a.2, vec![100; 64]);
    assert_eq!(frame_b.0.len(), 0);
    assert_eq!(frame_b.1.len(), 0);
}

#[test]
fn test_compute_matches_dimension_error() {
    let mut s = Slam::new(
        uniform_image(8, 8, 100),
        Image { width: 4, height: 4, data: vec![0; 64] },
    );
    let r = s.compute_matches();
    assert!(matches!(r, Err(PipelineError::DimensionError)));
}

#[test]
fn test_compute_matches_identical_frames() {
    // Two identical frames with one strong corner each: the corner matches
    // itself across the frames.
    let mut data = vec![10u8; 9 * 9 * 4];
    let center = 4 * (4 * 9 + 4);
    data[center] = 200;
    data[center + 1] = 200;
    data[center + 2] = 200;
    let frame = Image { width: 9, height: 9, data };
    let mut s = Slam::new(frame.clone(), frame);
    s.threshold = 20;
    let (matches, _fa, _fb) = s.compute_matches().unwrap();
    assert_eq!(matches.len(), 1);
    assert_eq!(matches[0].0.x, 4);
    assert_eq!(matches[0].0.y, 4);
    assert_eq!(matches[0].1.x, 4);
    assert_eq!(matches[0].1.y, 4);
}
