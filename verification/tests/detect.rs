use visodom::detect::{compute_orientations, fast_keypoints, is_corner_in_spiral};

#[test]
fn test_is_corner_in_spiral() {
    // A spiral ring where the center pixel is a corner: every sample but one
    // differs strongly, leaving a cyclic run of eleven.
    let circle: [u8; 12] = [10, 10, 200, 10, 10, 10, 10, 10, 10, 10, 10, 10];
    let center_point_intensity = 200;
    let threshold_for_intensity_difference = 50;
    let needed_consecutive_intensity_differences = 9;
    let is_corner = is_corner_in_spiral(
        center_point_intensity,
        &circle,
        threshold_for_intensity_difference,
        needed_consecutive_intensity_differences,
    );
    assert_eq!(is_corner, true);

    // A flat ring is never a corner.
    let circle: [u8; 12] = [10, 10, 10, 10, 10, 10, 10, 10, 10, 10, 10, 10];
    let center_point_intensity = 10;
    let threshold_for_intensity_difference = 50;
    let needed_consecutive_intensity_differences = 9;
    let is_corner = is_corner_in_spiral(
        center_point_intensity,
        &circle,
        threshold_for_intensity_difference,
        needed_consecutive_intensity_differences,
    );
    assert_eq!(is_corner, false);

    // One sample within threshold of the center still leaves a wrapping run
    // of eleven significant samples.
    let circle: [u8; 12] = [10, 10, 100, 10, 10, 10, 200, 10, 10, 10, 10, 10];
    let center_point_intensity = 200;
    let threshold_for_intensity_difference = 50;
    let needed_consecutive_intensity_differences = 9;
    let is_corner = is_corner_in_spiral(
        center_point_intensity,
        &circle,
        threshold_for_intensity_difference,
        needed_consecutive_intensity_differences,
    );
    assert_eq!(is_corner, true);

    // Two breaks split the ring into runs of two, three and five significant
    // samples; no cyclic run reaches nine, so this is not a corner.
    let circle: [u8; 12] = [10, 10, 100, 10, 10, 10, 100, 10, 10, 10, 10, 10];
    let center_point_intensity = 100;
    let threshold_for_intensity_difference = 50;
    let needed_consecutive_intensity_differences = 9;
    let is_corner = is_corner_in_spiral(
        center_point_intensity,
        &circle,
        threshold_for_intensity_difference,
        needed_consecutive_intensity_differences,
    );
    assert_eq!(is_corner, false);
}

#[test]
fn test_fast_keypoints() {
    // A 5x5 grid is too small for the three-pixel margin: nothing is
    // scanned, nothing returned.
    let img = [
        10, 10, 10, 10, 10, //
        10, 200, 10, 10, 10, //
        10, 10, 10, 10, 10, //
        10, 10, 10, 10, 10, //
        10, 10, 10, 10, 10, //
    ];
    let width = 5;
    let height = 5;
    let threshold = 50;
    let keypoints = fast_keypoints(&img, width, height, threshold);
    assert_eq!(keypoints, vec![]);

    // A single bright pixel at the center of a 9x9 uniform background is the
    // one corner.
    let img = [
        10, 10, 10, 10, 10, 10, 10, 10, 10, //
        10, 10, 10, 10, 10, 10, 10, 10, 10, //
        10, 10, 10, 10, 10, 10, 10, 10, 10, //
        10, 10, 10, 10, 10, 10, 10, 10, 10, //
        10, 10, 10, 10, 200, 10, 10, 10, 10, //
        10, 10, 10, 10, 10, 10, 10, 10, 10, //
        10, 10, 10, 10, 10, 10, 10, 10, 10, //
        10, 10, 10, 10, 10, 10, 10, 10, 10, //
        10, 10, 10, 10, 10, 10, 10, 10, 10, //
    ];
    let threshold = 50;
    let keypoints = fast_keypoints(&img, 9, 9, threshold);
    assert_eq!(keypoints, vec![(4, 4)]);

    // Two bright pixels and one dark pixel yield two corners, in scan order.
    let img = [
        10, 10, 10, 10, 10, 10, 10, 10, 10, //
        10, 10, 10, 10, 10, 10, 10, 10, 10, //
        10, 10, 10, 10, 10, 10, 10, 10, 10, //
        10, 10, 10, 200, 10, 10, 10, 10, 10, //
        10, 10, 10, 10, 0, 10, 10, 10, 10, //
        10, 10, 10, 10, 10, 200, 10, 10, 10, //
        10, 10, 10, 10, 10, 10, 10, 10, 10, //
        10, 10, 10, 10, 10, 10, 10, 10, 10, //
        10, 10, 10, 10, 10, 10, 10, 10, 10, //
    ];
    let threshold = 50;
    let keypoints = fast_keypoints(&img, 9, 9, threshold);
    assert_eq!(keypoints, vec![(3, 3), (5, 5)]);
}

#[test]
fn test_compute_orientations_uniform() {
    // On a uniform patch the weighted gradient moments cancel to zero: the
    // ring offsets are symmetric.
    let img = [77u8; 49];
    let keypoints = vec![(3usize, 3usize)];
    let oriented = compute_orientations(&img, 7, &keypoints);
    assert_eq!(oriented.len(), 1);
    assert_eq!(oriented[0].x, 3);
    assert_eq!(oriented[0].y, 3);
    assert_eq!(oriented[0].orientation.mx, 0);
    assert_eq!(oriented[0].orientation.my, 0);
}

#[test]
fn test_compute_orientations_gradient() {
    // A horizontal intensity step makes the x-moment positive and leaves the
    // y-moment zero by vertical symmetry.
    let mut img = [0u8; 49];
    for y in 0..7 {
        for x in 4..7 {
            img[y * 7 + x] = 90;
        }
    }
    let keypoints = vec![(3usize, 3usize)];
    let oriented = compute_orientations(&img, 7, &keypoints);
    assert_eq!(oriented.len(), 1);
    assert!(oriented[0].orientation.mx > 0);
    assert_eq!(oriented[0].orientation.my, 0);
}
