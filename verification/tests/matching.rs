use visodom::common::{Descriptor, KeyPoint, Orientation, PipelineError};
use visodom::matching::{hamming_distance, match_features};

fn kp(x: usize, y: usize) -> KeyPoint {
    KeyPoint { x, y, orientation: Orientation { mx: 0, my: 0 } }
}

#[test]
fn test_match_features() {
    let keypoints1 = vec![kp(0, 0), kp(1, 1), kp(2, 2)];
    let descriptors1 = vec![
        Descriptor(vec![0b00000000, 0b00000000, 0b00000000, 0b00000000]),
        Descriptor(vec![0b00000000, 0b00000000, 0b00000000, 0b00000011]),
        Descriptor(vec![0b01101000, 0b01000000, 0b00010000, 0b00000011]),
    ];
    let keypoints2 = vec![kp(0, 0), kp(1, 1), kp(2, 2)];
    let descriptors2 = vec![
        Descriptor(vec![0b00000000, 0b00000000, 0b00000000, 0b00000000]),
        Descriptor(vec![0b00000000, 0b00000000, 0b00000000, 0b00000011]),
        Descriptor(vec![0b01101000, 0b01000000, 0b00010000, 0b00000011]),
    ];

    // The distance bound is exclusive: with a maximum of zero even an exact
    // duplicate, at distance zero, does not qualify.
    let matches =
        match_features(&keypoints1, &descriptors1, &keypoints2, &descriptors2, 0).unwrap();
    assert_eq!(matches.len(), 0);

    // With a generous bound every keypoint finds its own duplicate.
    let matches =
        match_features(&keypoints1, &descriptors1, &keypoints2, &descriptors2, 100).unwrap();
    assert_eq!(matches.len(), 3);
    assert_eq!(matches[0].0, keypoints1[0]);
    assert_eq!(matches[0].1, keypoints2[0]);
    assert_eq!(matches[1].0, keypoints1[1]);
    assert_eq!(matches[1].1, keypoints2[1]);
    assert_eq!(matches[2].0, keypoints1[2]);
    assert_eq!(matches[2].1, keypoints2[2]);
}

#[test]
fn test_hamming_distance() {
    let bytes1: [u8; 4] = [0b00000000, 0b00000000, 0b00000000, 0b00000000];
    let bytes2: [u8; 4] = [0b00000000, 0b00000000, 0b00000000, 0b00000000];
    assert_eq!(hamming_distance(&bytes1, &bytes2), 0);

    let bytes1: [u8; 4] = [0b00000000, 0b00000000, 0b00000000, 0b00000000];
    let bytes2: [u8; 4] = [0b00000000, 0b00000000, 0b00000000, 0b00000001];
    assert_eq!(hamming_distance(&bytes1, &bytes2), 1);

    let bytes1: [u8; 4] = [0b00000000, 0b00000000, 0b00000000, 0b00000000];
    let bytes2: [u8; 4] = [0b00000000, 0b00000000, 0b00000000, 0b00000010];
    assert_eq!(hamming_distance(&bytes1, &bytes2), 1);

    let bytes1: [u8; 4] = [0b00000000, 0b00000000, 0b00000000, 0b00000000];
    let bytes2: [u8; 4] = [0b00000000, 0b00000000, 0b00000000, 0b00000011];
    assert_eq!(hamming_distance(&bytes1, &bytes2), 2);

    let bytes1: [u8; 4] = [0b00000000, 0b00000000, 0b00000000, 0b00000000];
    let bytes2: [u8; 4] = [0b00000000, 0b00000000, 0b00000000, 0b00000100];
    assert_eq!(hamming_distance(&bytes1, &bytes2), 1);

    let bytes1: [u8; 4] = [0b00000000, 0b00000000, 0b00000000, 0b00000000];
    let bytes2: [u8; 4] = [0b00000000, 0b00000000, 0b00000000, 0b00000101];
    assert_eq!(hamming_distance(&bytes1, &bytes2), 2);

    let bytes1: [u8; 2] = [0b11111111, 0b10101010];
    let bytes2: [u8; 2] = [0b00000000, 0b01010101];
    assert_eq!(hamming_distance(&bytes1, &bytes2), 16);
}

#[test]
fn test_match_features_prefers_nearest() {
    // The second frame-B descriptor is nearer to the probe than the first;
    // it must win even though the first was seen first.
    let keypoints1 = vec![kp(5, 5)];
    let descriptors1 = vec![Descriptor(vec![0b1111])];
    let keypoints2 = vec![kp(0, 0), kp(9, 9)];
    let descriptors2 = vec![Descriptor(vec![0b0000]), Descriptor(vec![0b0111])];
    let matches =
        match_features(&keypoints1, &descriptors1, &keypoints2, &descriptors2, 10).unwrap();
    assert_eq!(matches.len(), 1);
    assert_eq!(matches[0].1, kp(9, 9));
}

#[test]
fn test_match_features_tie_keeps_first() {
    // Two frame-B candidates at the same distance: the earlier one wins.
    let keypoints1 = vec![kp(5, 5)];
    let descriptors1 = vec![Descriptor(vec![0b0011])];
    let keypoints2 = vec![kp(1, 1), kp(2, 2)];
    let descriptors2 = vec![Descriptor(vec![0b0001]), Descriptor(vec![0b0010])];
    let matches =
        match_features(&keypoints1, &descriptors1, &keypoints2, &descriptors2, 10).unwrap();
    assert_eq!(matches.len(), 1);
    assert_eq!(matches[0].1, kp(1, 1));
}

#[test]
fn test_match_features_length_mismatch() {
    let keypoints1 = vec![kp(0, 0)];
    let descriptors1 = vec![Descriptor(vec![0, 0])];
    let keypoints2 = vec![kp(1, 1)];
    let descriptors2 = vec![Descriptor(vec![0, 0, 0])];
    let r = match_features(&keypoints1, &descriptors1, &keypoints2, &descriptors2, 10);
    assert_eq!(r, Err(PipelineError::DescriptorLengthMismatch));
}
