//! Matcher: Hamming distance over bit-packed descriptors and brute-force
//! nearest-descriptor matching bounded by a maximum distance.

use crate::common::{Descriptor, KeyPoint, PipelineError};
use vstd::prelude::*;

verus! {

/// Number of bit positions at which two byte values differ, counted by
/// repeated halving.
pub open spec fn bits_differ(a: nat, b: nat) -> nat
    decreases a + b,
{
    if a == 0 && b == 0 {
        0
    } else {
        (if a % 2 != b % 2 {
            1nat
        } else {
            0nat
        }) + bits_differ(a / 2, b / 2)
    }
}

/// `bits_differ` is zero exactly on equal values, and bounded by eight on
/// byte values.
pub proof fn lemma_bits_differ_zero(a: nat, b: nat)
    ensures
        (bits_differ(a, b) == 0) <==> a == b,
    decreases a + b,
{
    if a == 0 && b == 0 {
    } else {
        lemma_bits_differ_zero(a / 2, b / 2);
    }
}

/// Two bytes differ in at most eight bits.
proof fn lemma_bits_differ_bound(a: nat, b: nat, k: nat)
    requires
        a < k,
        b < k,
        k == 1 || k == 2 || k == 4 || k == 8 || k == 16 || k == 32 || k == 64 || k == 128 || k
            == 256,
    ensures
        bits_differ(a, b) <= (if k == 1 {
            0int
        } else if k == 2 {
            1int
        } else if k == 4 {
            2int
        } else if k == 8 {
            3int
        } else if k == 16 {
            4int
        } else if k == 32 {
            5int
        } else if k == 64 {
            6int
        } else if k == 128 {
            7int
        } else {
            8int
        }),
    decreases k,
{
    if k == 1 {
    } else {
        lemma_bits_differ_bound(a / 2, b / 2, k / 2);
    }
}

/// The Hamming distance of the first `n` byte pairs of two buffers.
pub open spec fn hamming_prefix(a: Seq<u8>, b: Seq<u8>, n: int) -> int
    decreases n,
{
    if n <= 0 {
        0
    } else {
        hamming_prefix(a, b, n - 1) + bits_differ(a[n - 1] as nat, b[n - 1] as nat)
    }
}

/// The Hamming distance of two equal-length byte buffers: the number of bit
/// positions at which they differ.
pub open spec fn hamming(a: Seq<u8>, b: Seq<u8>) -> int {
    hamming_prefix(a, b, a.len() as int)
}

/// A Hamming prefix sum is nonnegative and at most eight bits per byte.
pub proof fn lemma_hamming_prefix_bounds(a: Seq<u8>, b: Seq<u8>, n: int)
    requires
        0 <= n,
        n <= a.len(),
        n <= b.len(),
    ensures
        0 <= hamming_prefix(a, b, n) <= 8 * n,
    decreases n,
{
    if n > 0 {
        lemma_hamming_prefix_bounds(a, b, n - 1);
        lemma_bits_differ_bound(a[n - 1] as nat, b[n - 1] as nat, 256);
    }
}

/// The Hamming distance of two equal-length buffers is zero exactly when
/// they are equal.
pub proof fn lemma_hamming_zero_iff_eq(a: Seq<u8>, b: Seq<u8>)
    requires
        a.len() == b.len(),
    ensures
        (hamming(a, b) == 0) <==> a == b,
{
    lemma_hamming_prefix_zero(a, b, a.len() as int);
    if hamming(a, b) == 0 {
        assert(a =~= b);
    }
}

/// A zero Hamming prefix means the prefixes agree pointwise, and conversely.
proof fn lemma_hamming_prefix_zero(a: Seq<u8>, b: Seq<u8>, n: int)
    requires
        n <= a.len(),
        n <= b.len(),
    ensures
        (hamming_prefix(a, b, n) == 0) <==> (forall|i: int| 0 <= i < n ==> a[i] == b[i]),
    decreases n,
{
    if n > 0 {
        lemma_hamming_prefix_zero(a, b, n - 1);
        lemma_hamming_prefix_bounds(a, b, n - 1);
        lemma_bits_differ_zero(a[n - 1] as nat, b[n - 1] as nat);
    }
}

/// Count the bit positions at which two bytes differ.
fn byte_bits_differ(a: u8, b: u8) -> (r: u8)
    ensures
        r == bits_differ(a as nat, b as nat),
        r <= 8,
{
    proof {
        lemma_bits_differ_bound(a as nat, b as nat, 256);
    }
    let mut r: u8 = 0;
    let mut ta = a;
    let mut tb = b;
    while ta != 0 || tb != 0
        invariant
            r + bits_differ(ta as nat, tb as nat) == bits_differ(a as nat, b as nat),
            bits_differ(a as nat, b as nat) <= 8,
        decreases ta + tb,
    {
        if ta % 2 != tb % 2 {
            r = r + 1;
        }
        ta = ta / 2;
        tb = tb / 2;
    }
    r
}

/// The Hamming distance of two equal-length byte strings: the popcount of
/// the bytewise exclusive difference, summed across the buffers.
pub fn hamming_distance(bytes1: &[u8], bytes2: &[u8]) -> (d: usize)
    requires
        bytes1@.len() == bytes2@.len(),
        8 * bytes1@.len() <= usize::MAX,
    ensures
        d == hamming(bytes1@, bytes2@),
{
    let n = bytes1.len();
    let mut d: usize = 0;
    let mut i: usize = 0;
    while i < n
        invariant
            i <= n,
            n == bytes1@.len(),
            bytes1@.len() == bytes2@.len(),
            8 * bytes1@.len() <= usize::MAX,
            d == hamming_prefix(bytes1@, bytes2@, i as int),
            d <= 8 * i,
        decreases n - i,
    {
        let step = byte_bits_differ(bytes1[i], bytes2[i]);
        d = d + step as usize;
        i = i + 1;
    }
    d
}

/// The running state of one scan of frame B for the best match of a single
/// frame-A descriptor: starting from candidate index `j` with the best
/// distance and keypoint seen so far, finish the scan.  A candidate replaces
/// the incumbent only when its distance is strictly smaller, so the earliest
/// of equally distant candidates wins.
pub open spec fn scan_rec(
    d: Seq<u8>,
    kps2: Seq<KeyPoint>,
    ds2: Seq<Descriptor>,
    j: int,
    best_dist: int,
    best: Option<KeyPoint>,
) -> (int, Option<KeyPoint>)
    decreases ds2.len() - j,
{
    if j < 0 || j >= ds2.len() {
        (best_dist, best)
    } else {
        let dist = hamming(d, ds2[j].0@);
        if dist < best_dist {
            scan_rec(d, kps2, ds2, j + 1, dist, Some(kps2[j]))
        } else {
            scan_rec(d, kps2, ds2, j + 1, best_dist, best)
        }
    }
}

/// The match of one frame-A descriptor against all of frame B: the keypoint
/// of the first frame-B descriptor achieving the minimal Hamming distance,
/// provided some distance is strictly below `max`; `None` otherwise.
pub open spec fn match_for(
    d: Descriptor,
    kps2: Seq<KeyPoint>,
    ds2: Seq<Descriptor>,
    max: int,
) -> Option<KeyPoint> {
    scan_rec(d.0@, kps2, ds2, 0, max, None).1
}

/// All matched pairs: for each frame-A keypoint in order, the pair with its
/// best frame-B match, if one qualifies.
pub open spec fn matches_spec(
    kps1: Seq<KeyPoint>,
    ds1: Seq<Descriptor>,
    kps2: Seq<KeyPoint>,
    ds2: Seq<Descriptor>,
    max: int,
) -> Seq<(KeyPoint, KeyPoint)>
    decreases kps1.len(),
{
    if kps1.len() == 0 {
        Seq::empty()
    } else {
        let init = matches_spec(kps1.drop_last(), ds1.drop_last(), kps2, ds2, max);
        match match_for(ds1.last(), kps2, ds2, max) {
            Some(kb) => init + seq![(kps1.last(), kb)],
            None => init,
        }
    }
}

/// Some frame-A descriptor differs in byte length from some frame-B
/// descriptor, so a Hamming comparison between the sets is meaningless.
pub open spec fn length_mismatch(ds1: Seq<Descriptor>, ds2: Seq<Descriptor>) -> bool {
    exists|i: int, j: int|
        0 <= i < ds1.len() && 0 <= j < ds2.len() && ds1[i].0@.len() != ds2[j].0@.len()
}

/// Brute-force descriptor matching: for each `(keypoint, descriptor)` of
/// frame A, scan all of frame B and keep the first candidate of minimal
/// Hamming distance strictly below `max_hamming_distance`.  Matches are
/// many-to-one: frame-B keypoints are never removed.  A byte-length mismatch
/// between the two descriptor sets is reported as an error before any
/// comparison.
pub fn match_features(
    keypoints1: &Vec<KeyPoint>,
    descriptors1: &Vec<Descriptor>,
    keypoints2: &Vec<KeyPoint>,
    descriptors2: &Vec<Descriptor>,
    max_hamming_distance: usize,
) -> (r: Result<Vec<(KeyPoint, KeyPoint)>, PipelineError>)
    requires
        keypoints1@.len() == descriptors1@.len(),
        keypoints2@.len() == descriptors2@.len(),
        forall|i: int|
            0 <= i < descriptors1@.len() ==> 8 * (#[trigger] descriptors1@[i]).0@.len()
                <= usize::MAX,
    ensures
        match r {
            Ok(m) => !length_mismatch(descriptors1@, descriptors2@) && m@ == matches_spec(
                keypoints1@,
                descriptors1@,
                keypoints2@,
                descriptors2@,
                max_hamming_distance as int,
            ),
            Err(e) => e == PipelineError::DescriptorLengthMismatch && length_mismatch(
                descriptors1@,
                descriptors2@,
            ),
        },
{
    if descriptors1.len() > 0 && descriptors2.len() > 0 {
        let l = descriptors2[0].0.len();
        let mut i: usize = 0;
        while i < descriptors1.len()
            invariant
                i <= descriptors1@.len(),
                descriptors2@.len() > 0,
                l == descriptors2@[0].0@.len(),
                forall|k: int| 0 <= k < i ==> (#[trigger] descriptors1@[k]).0@.len() == l,
            decreases descriptors1@.len() - i,
        {
            if descriptors1[i].0.len() != l {
                proof {
                    assert(descriptors1@[i as int].0@.len() != descriptors2@[0].0@.len());
                }
                return Err(PipelineError::DescriptorLengthMismatch);
            }
            i = i + 1;
        }
        let mut j: usize = 0;
        while j < descriptors2.len()
            invariant
                j <= descriptors2@.len(),
                descriptors1@.len() > 0,
                descriptors2@.len() > 0,
                l == descriptors2@[0].0@.len(),
                forall|k: int| 0 <= k < descriptors1@.len() ==> (#[trigger] descriptors1@[k]).0@.len() == l,
                forall|k: int| 0 <= k < j ==> (#[trigger] descriptors2@[k]).0@.len() == l,
            decreases descriptors2@.len() - j,
        {
            if descriptors2[j].0.len() != l {
                proof {
                    assert(descriptors1@[0].0@.len() == l);
                    assert(descriptors1@[0].0@.len() != descriptors2@[j as int].0@.len());
                }
                return Err(PipelineError::DescriptorLengthMismatch);
            }
            j = j + 1;
        }
    }
    proof {
        assert(!length_mismatch(descriptors1@, descriptors2@));
    }

    let mut matches: Vec<(KeyPoint, KeyPoint)> = Vec::new();
    let mut i: usize = 0;
    while i < keypoints1.len()
        invariant
            i <= keypoints1@.len(),
            keypoints1@.len() == descriptors1@.len(),
            keypoints2@.len() == descriptors2@.len(),
            !length_mismatch(descriptors1@, descriptors2@),
            forall|k: int|
                0 <= k < descriptors1@.len() ==> 8 * (#[trigger] descriptors1@[k]).0@.len()
                    <= usize::MAX,
            matches@ == matches_spec(
                keypoints1@.take(i as int),
                descriptors1@.take(i as int),
                keypoints2@,
                descriptors2@,
                max_hamming_distance as int,
            ),
        decreases keypoints1@.len() - i,
    {
        let mut best_distance = max_hamming_distance;
        let mut best_match: Option<KeyPoint> = None;
        let ghost d = descriptors1@[i as int].0@;
        let mut j: usize = 0;
        while j < keypoints2.len()
            invariant
                j <= keypoints2@.len(),
                i < keypoints1@.len(),
                keypoints1@.len() == descriptors1@.len(),
                keypoints2@.len() == descriptors2@.len(),
                !length_mismatch(descriptors1@, descriptors2@),
                d == descriptors1@[i as int].0@,
                8 * d.len() <= usize::MAX,
                scan_rec(
                    d,
                    keypoints2@,
                    descriptors2@,
                    j as int,
                    best_distance as int,
                    best_match,
                ) == scan_rec(
                    d,
                    keypoints2@,
                    descriptors2@,
                    0,
                    max_hamming_distance as int,
                    None::<KeyPoint>,
                ),
            decreases keypoints2@.len() - j,
        {
            proof {
                assert(descriptors1@[i as int].0@.len() == descriptors2@[j as int].0@.len());
            }
            let distance = hamming_distance(descriptors1[i].0.as_slice(), descriptors2[j].0.as_slice());
            if distance < best_distance {
                best_distance = distance;
                best_match = Some(keypoints2[j]);
            }
            j = j + 1;
        }
        let ghost matches_before = matches@;
        match best_match {
            Some(matched_keypoint) => {
                let pair = (keypoints1[i], matched_keypoint);
                matches.push(pair);
            },
            None => {},
        }
        proof {
            assert(keypoints1@.take(i + 1).drop_last() =~= keypoints1@.take(i as int));
            assert(descriptors1@.take(i + 1).drop_last() =~= descriptors1@.take(i as int));
            assert(keypoints1@.take(i + 1).last() == keypoints1@[i as int]);
            assert(descriptors1@.take(i + 1).last() == descriptors1@[i as int]);
            assert(match_for(
                descriptors1@[i as int],
                keypoints2@,
                descriptors2@,
                max_hamming_distance as int,
            ) == best_match);
            if best_match is Some {
                assert(matches@ =~= matches_before + seq![
                    (keypoints1@[i as int], best_match.unwrap()),
                ]);
            }
        }
        i = i + 1;
    }
    proof {
        assert(keypoints1@.take(keypoints1@.len() as int) =~= keypoints1@);
        assert(descriptors1@.take(descriptors1@.len() as int) =~= descriptors1@);
    }
    Ok(matches)
}

/// With a maximum distance of zero no candidate can qualify, since the bound
/// is exclusive: the matcher returns no pairs whatever the inputs.
pub proof fn lemma_match_features_zero_max(
    kps1: Seq<KeyPoint>,
    ds1: Seq<Descriptor>,
    kps2: Seq<KeyPoint>,
    ds2: Seq<Descriptor>,
)
    requires
        kps1.len() == ds1.len(),
    ensures
        matches_spec(kps1, ds1, kps2, ds2, 0) == Seq::<(KeyPoint, KeyPoint)>::empty(),
    decreases kps1.len(),
{
    if kps1.len() > 0 {
        lemma_match_features_zero_max(kps1.drop_last(), ds1.drop_last(), kps2, ds2);
        lemma_scan_rec_no_improvement(ds1.last().0@, kps2, ds2, 0, 0, None);
    }
}

/// A scan whose incumbent distance is already zero or less never replaces
/// the incumbent, because Hamming distances are nonnegative.
proof fn lemma_scan_rec_no_improvement(
    d: Seq<u8>,
    kps2: Seq<KeyPoint>,
    ds2: Seq<Descriptor>,
    j: int,
    best_dist: int,
    best: Option<KeyPoint>,
)
    requires
        best_dist <= 0,
    ensures
        scan_rec(d, kps2, ds2, j, best_dist, best).1 == best,
    decreases ds2.len() - j,
{
    if 0 <= j < ds2.len() {
        lemma_hamming_prefix_nonneg(d, ds2[j].0@, d.len() as int);
        lemma_scan_rec_no_improvement(d, kps2, ds2, j + 1, best_dist, best);
    }
}

/// Any Hamming prefix sum is nonnegative, whatever the index.
proof fn lemma_hamming_prefix_nonneg(a: Seq<u8>, b: Seq<u8>, n: int)
    ensures
        hamming_prefix(a, b, n) >= 0,
    decreases n,
{
    if n > 0 {
        lemma_hamming_prefix_nonneg(a, b, n - 1);
    }
}

/// Matching a set of pairwise-distinct descriptors against itself with any
/// positive bound matches every keypoint to itself.
pub proof fn lemma_match_features_identity(
    kps: Seq<KeyPoint>,
    ds: Seq<Descriptor>,
    max: int,
    m: int,
)
    requires
        kps.len() == ds.len(),
        0 <= m <= kps.len(),
        max >= 1,
        forall|i: int, j: int|
            0 <= i < ds.len() && 0 <= j < ds.len() && i != j ==> (#[trigger] ds[i]).0@ != (
            #[trigger] ds[j]).0@,
        forall|i: int, j: int|
            0 <= i < ds.len() && 0 <= j < ds.len() ==> (#[trigger] ds[i]).0@.len() == (
            #[trigger] ds[j]).0@.len(),
    ensures
        matches_spec(kps.take(m), ds.take(m), kps, ds, max) == Seq::new(
            m as nat,
            |i: int| (kps[i], kps[i]),
        ),
    decreases m,
{
    if m == 0 {
        assert(matches_spec(kps.take(0), ds.take(0), kps, ds, max) =~= Seq::new(
            0nat,
            |i: int| (kps[i], kps[i]),
        ));
    } else {
        lemma_match_features_identity(kps, ds, max, m - 1);
        assert(kps.take(m).drop_last() =~= kps.take(m - 1));
        assert(ds.take(m).drop_last() =~= ds.take(m - 1));
        let di = ds[m - 1];
        lemma_hamming_zero_iff_eq(di.0@, di.0@);
        lemma_scan_rec_hits_self(di.0@, kps, ds, m - 1, 0, max, None);
        assert(matches_spec(kps.take(m), ds.take(m), kps, ds, max) =~= Seq::new(
            m as nat,
            |i: int| (kps[i], kps[i]),
        ));
    }
}

/// Scanning for a descriptor that occurs in the scanned set exactly at index
/// `target`, all other entries differing from it, ends on the keypoint at
/// `target` whenever the incumbent distance is still positive.
proof fn lemma_scan_rec_hits_self(
    d: Seq<u8>,
    kps: Seq<KeyPoint>,
    ds: Seq<Descriptor>,
    target: int,
    j: int,
    best_dist: int,
    best: Option<KeyPoint>,
)
    requires
        kps.len() == ds.len(),
        0 <= target < ds.len(),
        d == ds[target].0@,
        0 <= j <= ds.len(),
        j <= target,
        best_dist >= 1,
        forall|i: int, k: int|
            0 <= i < ds.len() && 0 <= k < ds.len() && i != k ==> (#[trigger] ds[i]).0@ != (
            #[trigger] ds[k]).0@,
        forall|i: int, k: int|
            0 <= i < ds.len() && 0 <= k < ds.len() ==> (#[trigger] ds[i]).0@.len() == (
            #[trigger] ds[k]).0@.len(),
    ensures
        scan_rec(d, kps, ds, j, best_dist, best).1 == Some(kps[target]),
    decreases ds.len() - j,
{
    let dist = hamming(d, ds[j].0@);
    lemma_hamming_prefix_nonneg(d, ds[j].0@, d.len() as int);
    lemma_hamming_zero_iff_eq(d, ds[j].0@);
    if j == target {
        assert(dist == 0);
        lemma_scan_rec_no_improvement(d, kps, ds, j + 1, 0, Some(kps[target]));
    } else {
        assert(ds[j].0@ != d);
        assert(dist >= 1);
        if dist < best_dist {
            lemma_scan_rec_hits_self(d, kps, ds, target, j + 1, dist, Some(kps[j]));
        } else {
            lemma_scan_rec_hits_self(d, kps, ds, target, j + 1, best_dist, best);
        }
    }
}

} // verus!
