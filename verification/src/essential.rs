//! Pose estimator support: the linear eight-point design matrix, fixed-point
//! epipolar scoring of essential-matrix candidates, and the deterministic
//! RANSAC bookkeeping — subset selection and best-candidate tracking.  The
//! one step that is not integer arithmetic, the singular-value decomposition
//! of a design matrix, is taken as an input here: a caller computes each
//! candidate matrix and hands it back for verified scoring and selection.

use crate::common::{KeyPoint, Mat3, PipelineError, FP_ONE};
use crate::math::{isqrt_spec, isqrt_u128, lemma_abs_mul_bound, lemma_square_nonneg};
use crate::rand::{choose_multiple, choose_rec, full_pool, Rand};
use vstd::prelude::*;

verus! {

/// Number of correspondences in one RANSAC minimal sample.
pub const RANSAC_SAMPLE_SIZE: usize = 8;

/// Largest pixel coordinate the fixed-point geometry admits.
pub const MAX_COORD: usize = 1_048_576;

/// A keypoint whose coordinates the fixed-point scoring arithmetic admits.
pub open spec fn coord_bounded(kp: KeyPoint) -> bool {
    kp.x <= MAX_COORD && kp.y <= MAX_COORD
}

/// Every correspondence has admissible coordinates in both frames.
pub open spec fn matches_bounded(ms: Seq<(KeyPoint, KeyPoint)>) -> bool {
    forall|i: int|
        0 <= i < ms.len() ==> coord_bounded((#[trigger] ms[i]).0) && coord_bounded(ms[i].1)
}

/// The entries of a candidate matrix stay within twice the fixed-point unit;
/// a unit singular vector scaled by `FP_ONE` always does.
pub open spec fn entries_bounded(m: Mat3) -> bool {
    forall|k: int| 0 <= k < 9 ==> -2 * FP_ONE <= (#[trigger] m.e@[k]) <= 2 * FP_ONE
}

/// One row of the eight-point design matrix: the nine bilinear coordinate
/// products of a correspondence.
pub open spec fn design_row(p1: KeyPoint, p2: KeyPoint) -> Seq<int> {
    seq![
        p1.x * p2.x,
        p1.y * p2.x,
        p2.x as int,
        p1.x * p2.y,
        p1.y * p2.y,
        p2.y as int,
        p1.x as int,
        p1.y as int,
        1,
    ]
}

/// The epipolar line `E * (x, y, 1)` in fixed-point units.
pub open spec fn epi_line(e: Seq<i64>, x: int, y: int) -> (int, int, int) {
    (e[0] * x + e[1] * y + e[2], e[3] * x + e[4] * y + e[5], e[6] * x + e[7] * y + e[8])
}

/// The epipolar line of the transposed matrix, `E^T * (x, y, 1)`.
pub open spec fn epi_line_t(e: Seq<i64>, x: int, y: int) -> (int, int, int) {
    (e[0] * x + e[3] * y + e[6], e[1] * x + e[4] * y + e[7], e[2] * x + e[5] * y + e[8])
}

/// The absolute value of an integer.
pub open spec fn abs_of(a: int) -> int {
    if a < 0 {
        -a
    } else {
        a
    }
}

/// A correspondence is an inlier of candidate `e`: the two fixed-point
/// line-distance errors both have nonzero line normals and their sum stays
/// strictly below the threshold.  A degenerate line (zero normal) never
/// yields an inlier, mirroring an infinite error.
pub open spec fn is_inlier(e: Seq<i64>, p1: KeyPoint, p2: KeyPoint, threshold_fp: int) -> bool {
    let l1 = epi_line(e, p2.x as int, p2.y as int);
    let l2 = epi_line_t(e, p1.x as int, p1.y as int);
    let num1 = abs_of(l1.0 * p1.x + l1.1 * p1.y + l1.2);
    let num2 = abs_of(l2.0 * p2.x + l2.1 * p2.y + l2.2);
    let d1 = isqrt_spec((l1.0 * l1.0 + l1.1 * l1.1) as nat) as int;
    let d2 = isqrt_spec((l2.0 * l2.0 + l2.1 * l2.1) as nat) as int;
    d1 > 0 && d2 > 0 && (num1 * FP_ONE) / d1 + (num2 * FP_ONE) / d2 < threshold_fp
}

/// The number of correspondences that are inliers of candidate `e`.
pub open spec fn inlier_count(
    e: Seq<i64>,
    ms: Seq<(KeyPoint, KeyPoint)>,
    threshold_fp: int,
) -> int
    decreases ms.len(),
{
    if ms.len() == 0 {
        0
    } else {
        inlier_count(e, ms.drop_last(), threshold_fp) + (if is_inlier(
            e,
            ms.last().0,
            ms.last().1,
            threshold_fp,
        ) {
            1int
        } else {
            0int
        })
    }
}

/// Decide whether one correspondence is an inlier of candidate `e`.
#[verifier::rlimit(100)]
fn check_inlier(e: &Mat3, p1: &KeyPoint, p2: &KeyPoint, threshold_fp: i64) -> (r: bool)
    requires
        entries_bounded(*e),
        coord_bounded(*p1),
        coord_bounded(*p2),
    ensures
        r == is_inlier(e.e@, *p1, *p2, threshold_fp as int),
{
    let x1 = p1.x as i128;
    let y1 = p1.y as i128;
    let x2 = p2.x as i128;
    let y2 = p2.y as i128;
    proof {
        lemma_abs_mul_bound(e.e@[0] as int, x2 as int, 2 * FP_ONE, MAX_COORD as int);
        lemma_abs_mul_bound(e.e@[1] as int, y2 as int, 2 * FP_ONE, MAX_COORD as int);
        lemma_abs_mul_bound(e.e@[3] as int, x2 as int, 2 * FP_ONE, MAX_COORD as int);
        lemma_abs_mul_bound(e.e@[4] as int, y2 as int, 2 * FP_ONE, MAX_COORD as int);
        lemma_abs_mul_bound(e.e@[6] as int, x2 as int, 2 * FP_ONE, MAX_COORD as int);
        lemma_abs_mul_bound(e.e@[7] as int, y2 as int, 2 * FP_ONE, MAX_COORD as int);
        lemma_abs_mul_bound(e.e@[0] as int, x1 as int, 2 * FP_ONE, MAX_COORD as int);
        lemma_abs_mul_bound(e.e@[3] as int, y1 as int, 2 * FP_ONE, MAX_COORD as int);
        lemma_abs_mul_bound(e.e@[1] as int, x1 as int, 2 * FP_ONE, MAX_COORD as int);
        lemma_abs_mul_bound(e.e@[4] as int, y1 as int, 2 * FP_ONE, MAX_COORD as int);
        lemma_abs_mul_bound(e.e@[2] as int, x1 as int, 2 * FP_ONE, MAX_COORD as int);
        lemma_abs_mul_bound(e.e@[5] as int, y1 as int, 2 * FP_ONE, MAX_COORD as int);
    }
    let l1a = e.e[0] as i128 * x2 + e.e[1] as i128 * y2 + e.e[2] as i128;
    let l1b = e.e[3] as i128 * x2 + e.e[4] as i128 * y2 + e.e[5] as i128;
    let l1c = e.e[6] as i128 * x2 + e.e[7] as i128 * y2 + e.e[8] as i128;
    let l2a = e.e[0] as i128 * x1 + e.e[3] as i128 * y1 + e.e[6] as i128;
    let l2b = e.e[1] as i128 * x1 + e.e[4] as i128 * y1 + e.e[7] as i128;
    let l2c = e.e[2] as i128 * x1 + e.e[5] as i128 * y1 + e.e[8] as i128;
    proof {
        lemma_abs_mul_bound(l1a as int, x1 as int, LINE_BOUND as int, MAX_COORD as int);
        lemma_abs_mul_bound(l1b as int, y1 as int, LINE_BOUND as int, MAX_COORD as int);
        lemma_abs_mul_bound(l2a as int, x2 as int, LINE_BOUND as int, MAX_COORD as int);
        lemma_abs_mul_bound(l2b as int, y2 as int, LINE_BOUND as int, MAX_COORD as int);
        lemma_abs_mul_bound(l1a as int, l1a as int, LINE_BOUND as int, LINE_BOUND as int);
        lemma_abs_mul_bound(l1b as int, l1b as int, LINE_BOUND as int, LINE_BOUND as int);
        lemma_abs_mul_bound(l2a as int, l2a as int, LINE_BOUND as int, LINE_BOUND as int);
        lemma_abs_mul_bound(l2b as int, l2b as int, LINE_BOUND as int, LINE_BOUND as int);
        lemma_square_nonneg(l1a as int);
        lemma_square_nonneg(l1b as int);
        lemma_square_nonneg(l2a as int);
        lemma_square_nonneg(l2b as int);
    }
    let s1 = l1a * x1 + l1b * y1 + l1c;
    let s2 = l2a * x2 + l2b * y2 + l2c;
    let num1 = if s1 < 0 {
        (-s1) as u128
    } else {
        s1 as u128
    };
    let num2 = if s2 < 0 {
        (-s2) as u128
    } else {
        s2 as u128
    };
    let n1 = (l1a * l1a + l1b * l1b) as u128;
    let n2 = (l2a * l2a + l2b * l2b) as u128;
    let d1 = isqrt_u128(n1);
    let d2 = isqrt_u128(n2);
    if d1 == 0 || d2 == 0 {
        return false;
    }
    proof {
        assert(num1 <= NUM_BOUND as u128);
        assert(num2 <= NUM_BOUND as u128);
        lemma_abs_mul_bound(num1 as int, FP_ONE as int, NUM_BOUND as int, FP_ONE as int);
        lemma_abs_mul_bound(num2 as int, FP_ONE as int, NUM_BOUND as int, FP_ONE as int);
        vstd::arithmetic::mul::lemma_mul_nonnegative(num1 as int, FP_ONE as int);
        vstd::arithmetic::mul::lemma_mul_nonnegative(num2 as int, FP_ONE as int);
        vstd::arithmetic::div_mod::lemma_div_pos_is_pos(num1 as int * FP_ONE, d1 as int);
        vstd::arithmetic::div_mod::lemma_div_pos_is_pos(num2 as int * FP_ONE, d2 as int);
        vstd::arithmetic::div_mod::lemma_div_nonincreasing(num1 as int * FP_ONE, d1 as int);
        vstd::arithmetic::div_mod::lemma_div_nonincreasing(num2 as int * FP_ONE, d2 as int);
    }
    if threshold_fp <= 0 {
        return false;
    }
    let err1 = num1 * (FP_ONE as u128) / d1;
    let err2 = num2 * (FP_ONE as u128) / d2;
    err1 + err2 < threshold_fp as u128
}

/// Magnitude bound of one epipolar-line component.
const LINE_BOUND: i128 = 0x4_0000_0000_0000;

/// Magnitude bound of one epipolar numerator.
const NUM_BOUND: i128 = 0x100_0000_0000_0000_0000;

/// Count the inliers of candidate `e` among all correspondences.
pub fn count_inliers(
    e: &Mat3,
    matches: &Vec<(KeyPoint, KeyPoint)>,
    threshold_fp: i64,
) -> (n: usize)
    requires
        entries_bounded(*e),
        matches_bounded(matches@),
    ensures
        n == inlier_count(e.e@, matches@, threshold_fp as int),
{
    let mut n: usize = 0;
    let mut i: usize = 0;
    while i < matches.len()
        invariant
            i <= matches@.len(),
            entries_bounded(*e),
            matches_bounded(matches@),
            n <= i,
            n == inlier_count(e.e@, matches@.take(i as int), threshold_fp as int),
        decreases matches@.len() - i,
    {
        let (p1, p2) = matches[i];
        let inlier = check_inlier(e, &p1, &p2, threshold_fp);
        proof {
            assert(matches@.take(i + 1).drop_last() =~= matches@.take(i as int));
            assert(matches@.take(i + 1).last() == matches@[i as int]);
            lemma_inlier_count_bounds(e.e@, matches@.take(i as int), threshold_fp as int);
        }
        if inlier {
            n = n + 1;
        }
        i = i + 1;
    }
    proof {
        assert(matches@.take(matches@.len() as int) =~= matches@);
    }
    n
}

/// An inlier count lies between zero and the number of correspondences.
proof fn lemma_inlier_count_bounds(e: Seq<i64>, ms: Seq<(KeyPoint, KeyPoint)>, threshold_fp: int)
    ensures
        0 <= inlier_count(e, ms, threshold_fp) <= ms.len(),
    decreases ms.len(),
{
    if ms.len() > 0 {
        lemma_inlier_count_bounds(e, ms.drop_last(), threshold_fp);
    }
}

/// The minimal samples RANSAC draws: `iters` choose-without-replacement
/// draws of `RANSAC_SAMPLE_SIZE` correspondences each, the generator state
/// threaded from draw to draw.
pub open spec fn subsets_rec(ms: Seq<(KeyPoint, KeyPoint)>, state: u64, iters: nat) -> (Seq<
    Seq<(KeyPoint, KeyPoint)>,
>, u64)
    decreases iters,
{
    if iters == 0 {
        (Seq::empty(), state)
    } else {
        let c = choose_rec(ms, full_pool(ms.len()), state, RANSAC_SAMPLE_SIZE as nat);
        let rest = subsets_rec(ms, c.1, (iters - 1) as nat);
        (seq![c.0] + rest.0, rest.1)
    }
}

/// Prepare the RANSAC iterations: with fewer than eight correspondences no
/// estimate is possible and nothing is drawn; otherwise draw one minimal
/// sample per iteration and expand each into its eight-point design-matrix
/// rows.  A caller turns each row set into a candidate essential matrix by
/// singular-value decomposition and hands the candidates to
/// `select_best_essential`.
pub fn ransac_design_sets(
    matches: &Vec<(KeyPoint, KeyPoint)>,
    num_iterations: usize,
    rnd: &mut Rand,
) -> (r: Result<Vec<Vec<[i64; 9]>>, PipelineError>)
    requires
        matches_bounded(matches@),
    ensures
        matches@.len() < RANSAC_SAMPLE_SIZE <==> r is Err,
        r is Err ==> r == Result::<Vec<Vec<[i64; 9]>>, PipelineError>::Err(
            PipelineError::InsufficientCorrespondences,
        ) && final(rnd).0 == old(rnd).0,
        r matches Ok(sets) ==> {
            let drawn = subsets_rec(matches@, old(rnd).0, num_iterations as nat);
            &&& final(rnd).0 == drawn.1
            &&& sets@.len() == num_iterations
            &&& forall|t: int|
                0 <= t < num_iterations ==> {
                    let subset = drawn.0[t];
                    &&& (#[trigger] sets@[t])@.len() == RANSAC_SAMPLE_SIZE
                    &&& subset.len() == RANSAC_SAMPLE_SIZE
                    &&& forall|q: int|
                        0 <= q < RANSAC_SAMPLE_SIZE ==> forall|k: int|
                            0 <= k < 9 ==> (#[trigger] sets@[t]@[q])@[k] == design_row(
                                subset[q].0,
                                subset[q].1,
                            )[k]
                }
        },
{
    if matches.len() < RANSAC_SAMPLE_SIZE {
        return Err(PipelineError::InsufficientCorrespondences);
    }
    let ghost s0: u64 = rnd.0;
    let ghost drawn: (Seq<Seq<(KeyPoint, KeyPoint)>>, u64) = subsets_rec(
        matches@,
        s0,
        num_iterations as nat,
    );
    proof {
        lemma_subsets_rec_len(matches@, s0, num_iterations as nat);
    }
    let mut sets: Vec<Vec<[i64; 9]>> = Vec::new();
    let mut t: usize = 0;
    while t < num_iterations
        invariant
            t <= num_iterations,
            drawn.0.len() == num_iterations,
            matches@.len() >= RANSAC_SAMPLE_SIZE,
            matches_bounded(matches@),
            drawn == subsets_rec(matches@, s0, num_iterations as nat),
            subsets_rec(matches@, rnd.0, (num_iterations - t) as nat).1 == drawn.1,
            seq_prefix_ok(sets@, drawn.0, t as int),
            subsets_match(matches@, rnd.0, drawn.0, t as int, num_iterations as int),
        decreases num_iterations - t,
    {
        let ghost state_before = rnd.0;
        let subset = choose_multiple(matches, rnd, RANSAC_SAMPLE_SIZE);
        let rows = build_design_rows(&subset);
        let ghost sets_before = sets@;
        sets.push(rows);
        proof {
            let c = choose_rec(
                matches@,
                full_pool(matches@.len()),
                state_before,
                RANSAC_SAMPLE_SIZE as nat,
            );
            let rest = subsets_rec(matches@, rnd.0, (num_iterations - t - 1) as nat);
            assert(subsets_rec(matches@, state_before, (num_iterations - t) as nat).0 == seq![c.0]
                + rest.0);
            assert(subsets_rec(matches@, state_before, (num_iterations - t) as nat).1 == rest.1);
            assert(subset@ == c.0);
            assert(drawn.0 =~= drawn.0.take(t as int) + (seq![c.0] + rest.0));
            assert(drawn.0.take(t as int).len() == t);
            assert((drawn.0.take(t as int) + (seq![c.0] + rest.0))[t as int] == (seq![c.0]
                + rest.0)[0]);
            assert(drawn.0[t as int] == c.0);
            assert(drawn.0.take(t + 1) =~= drawn.0.take(t as int) + seq![c.0]);
            assert(subsets_match(matches@, rnd.0, drawn.0, t + 1, num_iterations as int)) by {
                assert(drawn.0 =~= drawn.0.take(t + 1) + rest.0);
            }
            assert(sets@ =~= sets_before.push(rows));
            assert(seq_prefix_ok(sets@, drawn.0, t + 1));
        }
        t = t + 1;
    }
    Ok(sets)
}

/// `subsets_rec` yields one subset per iteration.
proof fn lemma_subsets_rec_len(ms: Seq<(KeyPoint, KeyPoint)>, state: u64, iters: nat)
    ensures
        subsets_rec(ms, state, iters).0.len() == iters,
    decreases iters,
{
    if iters > 0 {
        let c = choose_rec(ms, full_pool(ms.len()), state, RANSAC_SAMPLE_SIZE as nat);
        lemma_subsets_rec_len(ms, c.1, (iters - 1) as nat);
    }
}

/// The first `t` row sets built so far have the right length.
spec fn seq_prefix_ok(
    sets: Seq<Vec<[i64; 9]>>,
    drawn: Seq<Seq<(KeyPoint, KeyPoint)>>,
    t: int,
) -> bool {
    &&& sets.len() == t
    &&& forall|u: int|
        0 <= u < t ==> {
            &&& (#[trigger] sets[u])@.len() == RANSAC_SAMPLE_SIZE
            &&& drawn[u].len() == RANSAC_SAMPLE_SIZE
            &&& forall|q: int|
                0 <= q < RANSAC_SAMPLE_SIZE ==> forall|k: int|
                    0 <= k < 9 ==> (#[trigger] sets[u]@[q])@[k] == design_row(
                        drawn[u][q].0,
                        drawn[u][q].1,
                    )[k]
        }
}

/// The subsets still to be drawn from the current state continue the drawn
/// sequence.
spec fn subsets_match(
    ms: Seq<(KeyPoint, KeyPoint)>,
    state: u64,
    drawn: Seq<Seq<(KeyPoint, KeyPoint)>>,
    t: int,
    total: int,
) -> bool {
    drawn =~= drawn.take(t) + subsets_rec(ms, state, (total - t) as nat).0
}

/// Build the design-matrix row of one correspondence.
fn design_row_exec(p1: &KeyPoint, p2: &KeyPoint) -> (row: [i64; 9])
    requires
        coord_bounded(*p1),
        coord_bounded(*p2),
    ensures
        forall|k: int| 0 <= k < 9 ==> row@[k] == design_row(*p1, *p2)[k],
{
    let x1 = p1.x as i64;
    let y1 = p1.y as i64;
    let x2 = p2.x as i64;
    let y2 = p2.y as i64;
    proof {
        lemma_abs_mul_bound(x1 as int, x2 as int, MAX_COORD as int, MAX_COORD as int);
        lemma_abs_mul_bound(y1 as int, x2 as int, MAX_COORD as int, MAX_COORD as int);
        lemma_abs_mul_bound(x1 as int, y2 as int, MAX_COORD as int, MAX_COORD as int);
        lemma_abs_mul_bound(y1 as int, y2 as int, MAX_COORD as int, MAX_COORD as int);
    }
    [x1 * x2, y1 * x2, x2, x1 * y2, y1 * y2, y2, x1, y1, 1]
}

/// Expand one minimal sample into its design-matrix rows.
fn build_design_rows(subset: &Vec<(KeyPoint, KeyPoint)>) -> (rows: Vec<[i64; 9]>)
    requires
        forall|j: int|
            0 <= j < subset@.len() ==> coord_bounded((#[trigger] subset@[j]).0) && coord_bounded(
                subset@[j].1,
            ),
    ensures
        rows@.len() == subset@.len(),
        forall|j: int|
            0 <= j < subset@.len() ==> forall|k: int|
                0 <= k < 9 ==> (#[trigger] rows@[j])@[k] == design_row(
                    subset@[j].0,
                    subset@[j].1,
                )[k],
{
    let mut rows: Vec<[i64; 9]> = Vec::new();
    let mut q: usize = 0;
    while q < subset.len()
        invariant
            q <= subset@.len(),
            forall|j: int|
                0 <= j < subset@.len() ==> coord_bounded((#[trigger] subset@[j]).0)
                    && coord_bounded(subset@[j].1),
            rows@.len() == q,
            forall|j: int|
                0 <= j < q ==> forall|k: int|
                    0 <= k < 9 ==> (#[trigger] rows@[j])@[k] == design_row(
                        subset@[j].0,
                        subset@[j].1,
                    )[k],
        decreases subset@.len() - q,
    {
        let (p1, p2) = subset[q];
        let row = design_row_exec(&p1, &p2);
        rows.push(row);
        q = q + 1;
    }
    rows
}

/// The best candidate after scoring the tail of the candidate list from
/// index `j`, starting from the given incumbent and its inlier count: a
/// candidate replaces the incumbent only with a strictly larger count, so
/// of equally good candidates the earliest wins, and a candidate with no
/// inliers never wins.
pub open spec fn best_rec(
    ms: Seq<(KeyPoint, KeyPoint)>,
    cands: Seq<Option<Mat3>>,
    threshold_fp: int,
    j: int,
    best: Option<Mat3>,
    best_count: int,
) -> (Option<Mat3>, int)
    decreases cands.len() - j,
{
    if j < 0 || j >= cands.len() {
        (best, best_count)
    } else {
        match cands[j] {
            Some(e) => {
                let n = inlier_count(e.e@, ms, threshold_fp);
                if n > best_count {
                    best_rec(ms, cands, threshold_fp, j + 1, Some(e), n)
                } else {
                    best_rec(ms, cands, threshold_fp, j + 1, best, best_count)
                }
            },
            None => best_rec(ms, cands, threshold_fp, j + 1, best, best_count),
        }
    }
}

/// Score every essential-matrix candidate by its inlier count and keep the
/// one with the strictly largest count seen so far; `None` entries stand for
/// iterations whose decomposition failed and are skipped.  Returns no
/// estimate when no candidate has a single inlier.
pub fn select_best_essential(
    matches: &Vec<(KeyPoint, KeyPoint)>,
    candidates: &Vec<Option<Mat3>>,
    threshold_fp: i64,
) -> (r: Option<Mat3>)
    requires
        matches_bounded(matches@),
        forall|j: int|
            0 <= j < candidates@.len() ==> ((#[trigger] candidates@[j]) matches Some(e)
                ==> entries_bounded(e)),
    ensures
        r == best_rec(matches@, candidates@, threshold_fp as int, 0, None::<Mat3>, 0).0,
{
    let mut best: Option<Mat3> = None;
    let mut best_count: usize = 0;
    let mut j: usize = 0;
    while j < candidates.len()
        invariant
            j <= candidates@.len(),
            matches_bounded(matches@),
            forall|k: int|
                0 <= k < candidates@.len() ==> ((#[trigger] candidates@[k]) matches Some(e)
                    ==> entries_bounded(e)),
            best_rec(
                matches@,
                candidates@,
                threshold_fp as int,
                j as int,
                best,
                best_count as int,
            ) == best_rec(matches@, candidates@, threshold_fp as int, 0, None::<Mat3>, 0),
            best_count <= matches@.len(),
        decreases candidates@.len() - j,
    {
        match &candidates[j] {
            Some(e) => {
                let n = count_inliers(e, matches, threshold_fp);
                proof {
                    lemma_inlier_count_bounds(e.e@, matches@, threshold_fp as int);
                }
                if n > best_count {
                    best = Some(*e);
                    best_count = n;
                }
            },
            None => {},
        }
        j = j + 1;
    }
    best
}

} // verus!
