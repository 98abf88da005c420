use visodom::common::{KeyPoint, Mat3, Orientation, PipelineError, FP_ONE};
use visodom::decompose::decompose_from_svd;
use visodom::essential::{count_inliers, ransac_design_sets, select_best_essential};
use visodom::rand::Rand;

fn kp(x: usize, y: usize) -> KeyPoint {
    KeyPoint { x, y, orientation: Orientation { mx: 0, my: 0 } }
}

fn pairs(n: usize) -> Vec<(KeyPoint, KeyPoint)> {
    let mut v = Vec::new();
    for i in 0..n {
        v.push((kp(10 + i, 20 + 2 * i), (kp(11 + i, 19 + 2 * i))));
    }
    v
}

#[test]
fn test_ransac_insufficient_correspondences() {
    // With fewer than eight correspondences no estimate is attempted,
    // whatever the iteration count.
    let mut rng = Rand::new_with_seed(2523523);
    for n in 0..8usize {
        let matches = pairs(n);
        for iterations in [0usize, 1, 100] {
            let r = ransac_design_sets(&matches, iterations, &mut rng);
            assert!(matches!(r, Err(PipelineError::InsufficientCorrespondences)));
        }
    }
}

#[test]
fn test_ransac_design_sets() {
    let matches = pairs(9);
    let mut rng = Rand::new_with_seed(2523523);
    let sets = ransac_design_sets(&matches, 3, &mut rng).unwrap();
    assert_eq!(sets.len(), 3);
    for set in sets.iter() {
        assert_eq!(set.len(), 8);
        for row in set.iter() {
            // Each row is the bilinear product layout of some correspondence.
            let (p1, p2) = matches
                .iter()
                .find(|(p1, _)| p1.x as i64 == row[6] && p1.y as i64 == row[7])
                .unwrap();
            let x1 = p1.x as i64;
            let y1 = p1.y as i64;
            let x2 = p2.x as i64;
            let y2 = p2.y as i64;
            assert_eq!(
                row,
                &[x1 * x2, y1 * x2, x2, x1 * y2, y1 * y2, y2, x1, y1, 1]
            );
        }
    }
    // Same seed, same draws.
    let mut rng2 = Rand::new_with_seed(2523523);
    let sets2 = ransac_design_sets(&matches, 3, &mut rng2).unwrap();
    assert_eq!(sets, sets2);
}

/// The essential matrix of an identity rotation and a unit translation
/// along x, in fixed-point form.
fn translation_essential() -> Mat3 {
    Mat3 { e: [0, 0, 0, 0, 0, -FP_ONE, 0, FP_ONE, 0] }
}

#[test]
fn test_count_inliers() {
    let e = translation_essential();
    // Identical points on the x-axis epipolar geometry are exact inliers.
    let mut matches = Vec::new();
    for i in 0..10usize {
        let p = kp(30 + i, 40);
        matches.push((p, p));
    }
    assert_eq!(count_inliers(&e, &matches, 1), 10);
    // The bound is exclusive: a zero threshold admits nothing.
    assert_eq!(count_inliers(&e, &matches, 0), 0);
    // Points displaced vertically violate the epipolar constraint.
    let mut displaced = Vec::new();
    for i in 0..10usize {
        displaced.push((kp(30 + i, 40), kp(30 + i, 90)));
    }
    assert_eq!(count_inliers(&e, &displaced, FP_ONE / 2), 0);
}

#[test]
fn test_select_best_essential() {
    let e = translation_essential();
    let mut matches = Vec::new();
    for i in 0..10usize {
        let p = kp(30 + i, 40);
        matches.push((p, p));
    }
    // A skipped iteration, then the candidate with ten inliers.
    let candidates = vec![None, Some(e)];
    let best = select_best_essential(&matches, &candidates, 1).unwrap();
    assert_eq!(best.e, e.e);
    // A candidate without a single inlier is never selected.
    let best_none = select_best_essential(&matches, &candidates, 0);
    assert!(best_none.is_none());
    // No candidates at all: no estimate.
    assert!(select_best_essential(&matches, &vec![], 1).is_none());
}

#[test]
fn test_decompose_rotation() {
    // Singular-value factors of the essential matrix of the identity
    // rotation with unit translation along x: E = U S V^T with U and V the
    // permutation bases below, both proper rotations.  The two candidate
    // rotations then both carry determinant +1 and differ by the twisted
    // pair's half turn, so the tolerance is chosen wide enough to accept
    // either; what the test pins down is that the accepted candidate is a
    // proper rotation.
    let u = Mat3 { e: [0, 0, FP_ONE, 0, -FP_ONE, 0, FP_ONE, 0, 0] };
    let v = Mat3 { e: [0, 0, FP_ONE, FP_ONE, 0, 0, 0, FP_ONE, 0] };
    let (rotation, translation) = decompose_from_svd(&u, &v, 4 * FP_ONE).unwrap();
    // The resolved candidate is a proper rotation: orthonormal rows and a
    // determinant near +1.
    let r: Vec<f64> = rotation.e.iter().map(|&x| x as f64 / FP_ONE as f64).collect();
    for i in 0..3 {
        for j in 0..3 {
            let mut dot = 0.0f64;
            for k in 0..3 {
                dot += r[i * 3 + k] * r[j * 3 + k];
            }
            let expected = if i == j { 1.0 } else { 0.0 };
            assert!((dot - expected).abs() < 0.01);
        }
    }
    let det = r[0] * (r[4] * r[8] - r[5] * r[7]) - r[1] * (r[3] * r[8] - r[5] * r[6])
        + r[2] * (r[3] * r[7] - r[4] * r[6]);
    assert!((det - 1.0).abs() < 0.01);
    // The translation is the third column of U, here the x-axis.
    assert_eq!(translation, (FP_ONE, 0, 0));
}

#[test]
fn test_decompose_ambiguous() {
    // When both candidate rotations have negative determinant the geometry
    // is reported ambiguous.
    let u = Mat3 { e: [FP_ONE, 0, 0, 0, FP_ONE, 0, 0, 0, -FP_ONE] };
    let v = Mat3 { e: [FP_ONE, 0, 0, 0, FP_ONE, 0, 0, 0, FP_ONE] };
    let r = decompose_from_svd(&u, &v, FP_ONE / 64);
    assert!(matches!(r, Err(PipelineError::AmbiguousGeometry)));
}
