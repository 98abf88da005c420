use visodom::common::{Descriptor, KeyPoint, Orientation};
use visodom::descriptor::{
    compute_brief_descriptors, compute_descriptor, generate_sampling_pattern, rotate_point,
};
use visodom::rand::Rand;

#[test]
fn test_compute_descriptor() {
    let image = vec![
        1, 2, 3, //
        4, 5, 6, //
        7, 8, 9, //
    ];
    let width = 3;
    let height = 3;
    let keypoint = KeyPoint { x: 1, y: 1, orientation: Orientation { mx: 0, my: 0 } };
    let sampling_pattern = vec![
        ((0, 0), (0, 1)),
        ((0, 0), (1, 0)),
        ((0, 0), (1, 1)),
        ((0, 0), (0, -1)),
        ((0, 0), (-1, 0)),
        ((0, 0), (-1, -1)),
    ];

    // Binary reads from the right: the first three samples compare against
    // larger intensities and stay zero, the last three against smaller ones.
    let expected_descriptor = Descriptor(vec![0b0011_1000]);

    let actual_descriptor = compute_descriptor(&image, width, height, &keypoint, &sampling_pattern);

    assert_eq!(expected_descriptor, actual_descriptor);
}

#[test]
fn test_compute_brief_descriptors() {
    let image = vec![
        1, 2, 3, //
        4, 5, 6, //
        7, 8, 9, //
    ];
    let width = 3;
    let height = 3;
    let sampling_pattern = vec![
        ((0, 0), (0, 1)),
        ((0, 0), (1, 0)),
        ((0, 0), (1, 1)),
        ((0, 0), (0, -1)),
        ((0, 0), (-1, 0)),
        ((0, 0), (-1, -1)),
    ];

    // Coordinates are clamped to the image border, which shapes the
    // descriptors of the corner keypoints.
    let expected_descriptors = vec![
        Descriptor(vec![0b0011_1000]),
        Descriptor(vec![0b0011_1000]),
        Descriptor(vec![0b0000_0000]),
        Descriptor(vec![0b0010_1000]),
        Descriptor(vec![0b0011_0000]),
    ];

    let actual_descriptors = compute_brief_descriptors(
        &image,
        width,
        height,
        &vec![
            KeyPoint { x: 1, y: 1, orientation: Orientation { mx: 0, my: 0 } },
            KeyPoint { x: 2, y: 2, orientation: Orientation { mx: 0, my: 0 } },
            KeyPoint { x: 0, y: 0, orientation: Orientation { mx: 0, my: 0 } },
            KeyPoint { x: 0, y: 2, orientation: Orientation { mx: 0, my: 0 } },
            KeyPoint { x: 2, y: 0, orientation: Orientation { mx: 0, my: 0 } },
        ],
        &sampling_pattern,
    );

    assert_eq!(expected_descriptors, actual_descriptors);
}

#[test]
fn test_rotate_point() {
    // A gradient direction straight up stands for a quarter turn.
    let x = 0;
    let y = 2;
    let orientation = Orientation { mx: 0, my: 1 };

    let expected_result = (-2, 0);

    let actual_result = rotate_point(x, y, orientation);

    assert_eq!(expected_result.0, actual_result.0);
    assert_eq!(expected_result.1, actual_result.1);

    // A direction along the x-axis rotates nothing.
    let x = 0;
    let y = 2;
    let orientation = Orientation { mx: 1, my: 0 };

    let expected_result = (0, 2);

    let actual_result = rotate_point(x, y, orientation);

    assert_eq!(expected_result.0, actual_result.0);
    assert_eq!(expected_result.1, actual_result.1);
}

#[test]
fn test_generate_sampling_pattern_deterministic() {
    let mut rng1 = Rand::new_with_seed(2523523);
    let mut rng2 = Rand::new_with_seed(2523523);
    let p1 = generate_sampling_pattern(&mut rng1, 100, 32);
    let p2 = generate_sampling_pattern(&mut rng2, 100, 32);
    assert_eq!(p1.len(), 32);
    assert_eq!(p1, p2);
    for &((x1, y1), (x2, y2)) in p1.iter() {
        for v in [x1, y1, x2, y2] {
            assert!(-50 <= v && v <= 50);
        }
    }
    // A different seed gives a different pattern.
    let mut rng3 = Rand::new_with_seed(99);
    let p3 = generate_sampling_pattern(&mut rng3, 100, 32);
    assert_ne!(p1, p3);
}

#[test]
fn test_rotated_descriptor_quarter_turn() {
    // Rotation invariance: an edge whose gradient points down, sampled with
    // the pattern rotated a quarter turn, yields the same descriptor as the
    // same edge turned to point its gradient along the x-axis and sampled
    // unrotated.
    let horizontal_edge = vec![
        0, 0, 0, 0, 0, //
        0, 0, 0, 0, 0, //
        0, 0, 0, 0, 0, //
        200, 200, 200, 200, 200, //
        200, 200, 200, 200, 200, //
    ];
    let vertical_edge = vec![
        0, 0, 0, 200, 200, //
        0, 0, 0, 200, 200, //
        0, 0, 0, 200, 200, //
        0, 0, 0, 200, 200, //
        0, 0, 0, 200, 200, //
    ];
    let pattern = vec![((0, 1), (0, -1)), ((1, 1), (-1, -1)), ((1, 0), (0, 0))];
    let downward = KeyPoint { x: 2, y: 2, orientation: Orientation { mx: 0, my: 1 } };
    let rightward = KeyPoint { x: 2, y: 2, orientation: Orientation { mx: 1, my: 0 } };
    let d_horizontal = compute_descriptor(&horizontal_edge, 5, 5, &downward, &pattern);
    let d_vertical = compute_descriptor(&vertical_edge, 5, 5, &rightward, &pattern);
    assert_eq!(d_horizontal, d_vertical);
    assert_eq!(d_horizontal, Descriptor(vec![0b110]));
}
