//! Pose decomposer: build the two canonical rotation candidates from the
//! singular-value factors of an essential matrix, resolve the sign ambiguity
//! by determinant, and read off the translation.  All matrix algebra is
//! exact fixed-point integer arithmetic; the singular-value decomposition
//! itself is an input, handed in as two fixed-point factor matrices.

use crate::common::{Mat3, PipelineError, FP_ONE};
use crate::math::{
    div_trunc, div_trunc_i128, lemma_abs_mul_bound, lemma_div_trunc_scaled_bound,
};
use vstd::prelude::*;

verus! {

/// The entries of a matrix as mathematical integers, row-major.
pub open spec fn mat_ints(m: Mat3) -> Seq<int> {
    Seq::new(9, |k: int| m.e@[k] as int)
}

/// Every entry of `m` lies within `bound`.
pub open spec fn mat_bounded(m: Mat3, bound: int) -> bool {
    forall|k: int| 0 <= k < 9 ==> -bound <= (#[trigger] m.e@[k]) <= bound
}

/// Fixed-point matrix product: entry `(i, j)` is the dot product of row `i`
/// of `a` with column `j` of `b`, rescaled by `FP_ONE` with truncation.
pub open spec fn fp_mul(a: Seq<int>, b: Seq<int>) -> Seq<int> {
    Seq::new(
        9,
        |k: int|
            div_trunc(
                a[3 * (k / 3)] * b[k % 3] + a[3 * (k / 3) + 1] * b[3 + k % 3] + a[3 * (k / 3) + 2]
                    * b[6 + k % 3],
                FP_ONE as int,
            ),
    )
}

/// The transpose of a row-major 3-by-3 matrix.
pub open spec fn transpose_ints(a: Seq<int>) -> Seq<int> {
    Seq::new(9, |k: int| a[3 * (k % 3) + k / 3])
}

/// The fixed 90-degree-rotation basis `W` in fixed-point units.
pub open spec fn w_ints() -> Seq<int> {
    seq![0, -(FP_ONE as int), 0, FP_ONE as int, 0, 0, 0, 0, FP_ONE as int]
}

/// The determinant of the raw fixed-point entries, rescaled to `FP_ONE`
/// units with truncation.
pub open spec fn fp_det(m: Seq<int>) -> int {
    div_trunc(
        m[0] * (m[4] * m[8] - m[5] * m[7]) - m[1] * (m[3] * m[8] - m[5] * m[6]) + m[2] * (m[3]
            * m[7] - m[4] * m[6]),
        FP_ONE as int * FP_ONE as int,
    )
}

/// The first canonical rotation candidate, `U * W * V^T`.
pub open spec fn candidate_r1(u: Seq<int>, v: Seq<int>) -> Seq<int> {
    fp_mul(fp_mul(u, w_ints()), transpose_ints(v))
}

/// The second canonical rotation candidate, `U * W^T * V^T`.
pub open spec fn candidate_r2(u: Seq<int>, v: Seq<int>) -> Seq<int> {
    fp_mul(fp_mul(u, transpose_ints(w_ints())), transpose_ints(v))
}

/// Every entry of `a` lies within `tol` of the matching entry of `b`.
pub open spec fn close_entries(a: Seq<int>, b: Seq<int>, tol: int) -> bool {
    forall|k: int| 0 <= k < 9 ==> -tol <= (#[trigger] a[k]) - b[k] <= tol
}

/// One fixed-point dot product of three terms, rescaled by `FP_ONE`.
fn fp_dot(
    a0: i64,
    a1: i64,
    a2: i64,
    b0: i64,
    b1: i64,
    b2: i64,
    Ghost(ba): Ghost<int>,
    Ghost(bb): Ghost<int>,
) -> (r: i64)
    requires
        0 <= ba <= 0x4000_0000,
        0 <= bb <= 0x4000_0000,
        -ba <= a0 <= ba,
        -ba <= a1 <= ba,
        -ba <= a2 <= ba,
        -bb <= b0 <= bb,
        -bb <= b1 <= bb,
        -bb <= b2 <= bb,
    ensures
        r == div_trunc(a0 * b0 + a1 * b1 + a2 * b2, FP_ONE as int),
        -(3 * (ba * bb)) <= r * FP_ONE <= 3 * (ba * bb),
{
    proof {
        assert(ba * bb <= 0x1000_0000_0000_0000) by (nonlinear_arith)
            requires
                0 <= ba <= 0x4000_0000,
                0 <= bb <= 0x4000_0000,
        ;
        lemma_abs_mul_bound(a0 as int, b0 as int, ba, bb);
        lemma_abs_mul_bound(a1 as int, b1 as int, ba, bb);
        lemma_abs_mul_bound(a2 as int, b2 as int, ba, bb);
    }
    let num = a0 as i128 * b0 as i128 + a1 as i128 * b1 as i128 + a2 as i128 * b2 as i128;
    let q = div_trunc_i128(num, FP_ONE as i128);
    proof {
        lemma_div_trunc_scaled_bound(num as int, FP_ONE as int, 3 * (ba * bb));
        assert(-(3 * (ba * bb)) <= q * FP_ONE <= 3 * (ba * bb));
    }
    q as i64
}

/// Multiply two fixed-point matrices.  The bound parameters let callers
/// carry entry bounds through a chain of products.
fn mat3_mul(a: &Mat3, b: &Mat3, Ghost(ba): Ghost<int>, Ghost(bb): Ghost<int>) -> (c: Mat3)
    requires
        0 <= ba <= 0x4000_0000,
        0 <= bb <= 0x4000_0000,
        mat_bounded(*a, ba),
        mat_bounded(*b, bb),
    ensures
        mat_ints(c) == fp_mul(mat_ints(*a), mat_ints(*b)),
        forall|k: int|
            0 <= k < 9 ==> -(3 * (ba * bb)) <= (#[trigger] c.e@[k]) * FP_ONE <= 3 * (ba * bb),
{
    let c = Mat3 {
        e: [
            fp_dot(a.e[0], a.e[1], a.e[2], b.e[0], b.e[3], b.e[6], Ghost(ba), Ghost(bb)),
            fp_dot(a.e[0], a.e[1], a.e[2], b.e[1], b.e[4], b.e[7], Ghost(ba), Ghost(bb)),
            fp_dot(a.e[0], a.e[1], a.e[2], b.e[2], b.e[5], b.e[8], Ghost(ba), Ghost(bb)),
            fp_dot(a.e[3], a.e[4], a.e[5], b.e[0], b.e[3], b.e[6], Ghost(ba), Ghost(bb)),
            fp_dot(a.e[3], a.e[4], a.e[5], b.e[1], b.e[4], b.e[7], Ghost(ba), Ghost(bb)),
            fp_dot(a.e[3], a.e[4], a.e[5], b.e[2], b.e[5], b.e[8], Ghost(ba), Ghost(bb)),
            fp_dot(a.e[6], a.e[7], a.e[8], b.e[0], b.e[3], b.e[6], Ghost(ba), Ghost(bb)),
            fp_dot(a.e[6], a.e[7], a.e[8], b.e[1], b.e[4], b.e[7], Ghost(ba), Ghost(bb)),
            fp_dot(a.e[6], a.e[7], a.e[8], b.e[2], b.e[5], b.e[8], Ghost(ba), Ghost(bb)),
        ],
    };
    proof {
        assert(mat_ints(c) =~= fp_mul(mat_ints(*a), mat_ints(*b)));
    }
    c
}

/// Transpose a fixed-point matrix.
fn mat3_transpose(a: &Mat3) -> (c: Mat3)
    ensures
        mat_ints(c) == transpose_ints(mat_ints(*a)),
        forall|k: int| 0 <= k < 9 ==> (#[trigger] c.e@[k]) == a.e@[3 * (k % 3) + k / 3],
{
    let c = Mat3 {
        e: [
            a.e[0], a.e[3], a.e[6],
            a.e[1], a.e[4], a.e[7],
            a.e[2], a.e[5], a.e[8],
        ],
    };
    proof {
        assert(mat_ints(c) =~= transpose_ints(mat_ints(*a)));
    }
    c
}

/// The fixed 90-degree-rotation basis `W`.
fn mat3_w() -> (c: Mat3)
    ensures
        mat_ints(c) == w_ints(),
        mat_bounded(c, FP_ONE as int),
{
    let c = Mat3 { e: [0, -FP_ONE, 0, FP_ONE, 0, 0, 0, 0, FP_ONE] };
    proof {
        assert(mat_ints(c) =~= w_ints());
    }
    c
}

/// The determinant of a fixed-point matrix, in `FP_ONE` units.
fn mat3_det_fp(m: &Mat3) -> (d: i64)
    requires
        mat_bounded(*m, 0x1000_0000),
    ensures
        d == fp_det(mat_ints(*m)),
{
    proof {
        lemma_abs_mul_bound(m.e@[4] as int, m.e@[8] as int, 0x1000_0000, 0x1000_0000);
        lemma_abs_mul_bound(m.e@[5] as int, m.e@[7] as int, 0x1000_0000, 0x1000_0000);
        lemma_abs_mul_bound(m.e@[3] as int, m.e@[8] as int, 0x1000_0000, 0x1000_0000);
        lemma_abs_mul_bound(m.e@[5] as int, m.e@[6] as int, 0x1000_0000, 0x1000_0000);
        lemma_abs_mul_bound(m.e@[3] as int, m.e@[7] as int, 0x1000_0000, 0x1000_0000);
        lemma_abs_mul_bound(m.e@[4] as int, m.e@[6] as int, 0x1000_0000, 0x1000_0000);
    }
    let c0 = m.e[4] as i128 * m.e[8] as i128 - m.e[5] as i128 * m.e[7] as i128;
    let c1 = m.e[3] as i128 * m.e[8] as i128 - m.e[5] as i128 * m.e[6] as i128;
    let c2 = m.e[3] as i128 * m.e[7] as i128 - m.e[4] as i128 * m.e[6] as i128;
    proof {
        lemma_abs_mul_bound(m.e@[0] as int, c0 as int, 0x1000_0000, 0x200_0000_0000_0000);
        lemma_abs_mul_bound(m.e@[1] as int, c1 as int, 0x1000_0000, 0x200_0000_0000_0000);
        lemma_abs_mul_bound(m.e@[2] as int, c2 as int, 0x1000_0000, 0x200_0000_0000_0000);
    }
    let num = m.e[0] as i128 * c0 - m.e[1] as i128 * c1 + m.e[2] as i128 * c2;
    proof {
        assert(FP_ONE as int * FP_ONE as int == 0x100_0000_0000) by (nonlinear_arith)
            requires
                FP_ONE == 1_048_576,
        ;
    }
    let unit = FP_ONE as i128 * FP_ONE as i128;
    let q = div_trunc_i128(num, unit);
    proof {
        lemma_div_trunc_scaled_bound(
            num as int,
            FP_ONE as int * FP_ONE as int,
            0x60_0000_0000_0000_0000_0000,
        );
    }
    q as i64
}

/// Decompose an essential matrix given its singular-value factors `U` and
/// `V` (both scaled by `FP_ONE`): build the two canonical rotation
/// candidates `U W V^T` and `U W^T V^T`, accept the one with positive
/// determinant, and return it with the translation, the third column of
/// `U`.  When both candidates have positive determinant they must agree
/// entrywise within `tol` (either is then returned); when neither does, or
/// the two positive candidates differ materially, the geometry is reported
/// ambiguous.  The determinant test performs no cheirality
/// (positive-depth) check, so a physically impossible pose with a proper
/// rotation is not detected here.
pub fn decompose_from_svd(u: &Mat3, v: &Mat3, tol: i64) -> (r: Result<
    (Mat3, (i64, i64, i64)),
    PipelineError,
>)
    requires
        mat_bounded(*u, 2 * FP_ONE),
        mat_bounded(*v, 2 * FP_ONE),
        tol >= 0,
    ensures
        ({
            let r1 = candidate_r1(mat_ints(*u), mat_ints(*v));
            let r2 = candidate_r2(mat_ints(*u), mat_ints(*v));
            let d1 = fp_det(r1);
            let d2 = fp_det(r2);
            match r {
                Ok((rot, trans)) => {
                    &&& (d1 > 0 && d2 <= 0 ==> mat_ints(rot) == r1)
                    &&& (d2 > 0 && d1 <= 0 ==> mat_ints(rot) == r2)
                    &&& (d1 > 0 && d2 > 0 ==> mat_ints(rot) == r1 && close_entries(r1, r2, tol as int))
                    &&& (d1 > 0 || d2 > 0)
                    &&& fp_det(mat_ints(rot)) > 0
                    &&& trans == (u.e@[2], u.e@[5], u.e@[8])
                },
                Err(e) => {
                    &&& e == PipelineError::AmbiguousGeometry
                    &&& ((d1 <= 0 && d2 <= 0) || (d1 > 0 && d2 > 0 && !close_entries(
                        r1,
                        r2,
                        tol as int,
                    )))
                },
            }
        }),
{
    let w = mat3_w();
    let wt = mat3_transpose(&w);
    let vt = mat3_transpose(v);
    proof {
        assert(mat_bounded(wt, FP_ONE as int));
        assert(mat_bounded(vt, 2 * FP_ONE));
    }
    let uw = mat3_mul(u, &w, Ghost(2 * FP_ONE as int), Ghost(FP_ONE as int));
    let uwt = mat3_mul(u, &wt, Ghost(2 * FP_ONE as int), Ghost(FP_ONE as int));
    proof {
        assert((2 * FP_ONE as int) * (FP_ONE as int) == 0x200_0000_0000) by (nonlinear_arith)
            requires
                FP_ONE == 1_048_576,
        ;
        assert(mat_bounded(uw, 6 * FP_ONE as int));
        assert(mat_bounded(uwt, 6 * FP_ONE as int));
    }
    let rot1 = mat3_mul(&uw, &vt, Ghost(6 * FP_ONE as int), Ghost(2 * FP_ONE as int));
    let rot2 = mat3_mul(&uwt, &vt, Ghost(6 * FP_ONE as int), Ghost(2 * FP_ONE as int));
    proof {
        assert((6 * FP_ONE as int) * (2 * FP_ONE as int) == 0xC00_0000_0000) by (nonlinear_arith)
            requires
                FP_ONE == 1_048_576,
        ;
        assert(mat_bounded(rot1, 36 * FP_ONE as int));
        assert(mat_bounded(rot2, 36 * FP_ONE as int));
    }
    let d1 = mat3_det_fp(&rot1);
    let d2 = mat3_det_fp(&rot2);
    let translation = (u.e[2], u.e[5], u.e[8]);
    if d1 > 0 && d2 <= 0 {
        Ok((rot1, translation))
    } else if d2 > 0 && d1 <= 0 {
        Ok((rot2, translation))
    } else if d1 > 0 && d2 > 0 {
        let mut close = true;
        let mut k: usize = 0;
        while k < 9
            invariant
                k <= 9,
                tol >= 0,
                mat_bounded(rot1, 36 * FP_ONE as int),
                mat_bounded(rot2, 36 * FP_ONE as int),
                close == (forall|j: int|
                    0 <= j < k ==> -tol <= (#[trigger] rot1.e@[j]) - rot2.e@[j] <= tol),
            decreases 9 - k,
        {
            let diff_ok = if rot1.e[k] >= rot2.e[k] {
                rot1.e[k] - rot2.e[k] <= tol
            } else {
                rot2.e[k] - rot1.e[k] <= tol
            };
            if !diff_ok {
                close = false;
            }
            k = k + 1;
        }
        proof {
            assert(close == close_entries(mat_ints(rot1), mat_ints(rot2), tol as int));
        }
        if close {
            Ok((rot1, translation))
        } else {
            Err(PipelineError::AmbiguousGeometry)
        }
    } else {
        Err(PipelineError::AmbiguousGeometry)
    }
}

} // verus!
