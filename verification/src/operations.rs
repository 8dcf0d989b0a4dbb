//! Vector-level operations against an owned matrix.

use crate::DIM_BOUND;
use crate::ENTRY_BOUND;
use crate::Matrix;
use crate::MatrixError;
use crate::MatrixIndex;
use vstd::prelude::*;

verus! {

/// The dot product of the first `k` terms of row `i` of `a` with the vector
/// `v`.
pub open spec fn dot_row_vec(a: Matrix, v: Seq<i64>, i: int, k: int) -> int
    decreases k,
{
    if k <= 0 {
        0
    } else {
        dot_row_vec(a, v, i, k - 1) + a.entry(i, k - 1) * v[k - 1]
    }
}

/// Every entry of the matrix lies within `ENTRY_BOUND` in magnitude.
pub open spec fn matrix_entries_bounded(a: Matrix) -> bool {
    forall|i: int, j: int|
        0 <= i < a.rows() && 0 <= j < a.cols() ==> -(ENTRY_BOUND as int) <= (
        #[trigger] a.entry(i, j)) <= ENTRY_BOUND as int
}

/// Every element of the vector lies within `ENTRY_BOUND` in magnitude.
pub open spec fn vec_entries_bounded(v: Seq<i64>) -> bool {
    forall|k: int|
        0 <= k < v.len() ==> -(ENTRY_BOUND as int) <= #[trigger] v[k] <= ENTRY_BOUND as int
}

/// A partial row-vector dot product of `k` bounded terms stays within `k`
/// times the largest possible term.
proof fn lemma_dot_row_vec_bound(a: Matrix, v: Seq<i64>, i: int, k: int)
    requires
        0 <= i < a.rows(),
        0 <= k <= a.cols(),
        v.len() == a.cols(),
        matrix_entries_bounded(a),
        vec_entries_bounded(v),
    ensures
        -(k * (ENTRY_BOUND as int) * (ENTRY_BOUND as int)) <= dot_row_vec(a, v, i, k) <= k * (
        ENTRY_BOUND as int) * (ENTRY_BOUND as int),
    decreases k,
{
    if k > 0 {
        lemma_dot_row_vec_bound(a, v, i, k - 1);
        let x = a.entry(i, k - 1) as int;
        let y = v[k - 1] as int;
        assert(-(1048576int * 1048576) <= x * y <= 1048576int * 1048576) by (nonlinear_arith)
            requires
                -1048576 <= x <= 1048576,
                -1048576 <= y <= 1048576,
        ;
    }
}

/// Generalized matrix-vector multiply: overwrite `u` with `a` times `v`.
///
/// `u[i]` becomes the dot product of row `i` of `a` with `v`, accumulated
/// in column order starting from zero.  The shapes are checked before
/// anything is written: on a mismatch `u` is left exactly as it was.
#[verifier::loop_isolation(false)]
pub fn gaxpy(a: &Matrix, v: &Vec<i64>, u: &mut Vec<i64>) -> (r: Result<(), MatrixError>)
    requires
        a.wf(),
        v@.len() == a.cols() && old(u)@.len() == a.rows() ==> a.cols() <= DIM_BOUND as int
            && matrix_entries_bounded(*a) && vec_entries_bounded(v@),
    ensures
        final(u)@.len() == old(u)@.len(),
        r is Ok <==> (v@.len() == a.cols() && old(u)@.len() == a.rows()),
        !(v@.len() == a.cols() && old(u)@.len() == a.rows()) ==> r == Err::<
            (),
            MatrixError,
        >(MatrixError::DimensionMismatch) && final(u)@ == old(u)@,
        r is Ok ==> forall|i: int|
            0 <= i < a.rows() ==> (#[trigger] final(u)@[i]) == dot_row_vec(
                *a,
                v@,
                i,
                a.cols(),
            ),
{
    if !(v.len() == a.n && u.len() == a.m) {
        return Err(MatrixError::DimensionMismatch);
    }
    let rows = a.m;
    let cols = a.n;
    let mut i: usize = 0;
    while i < rows
        invariant
            i <= rows,
            u@.len() == old(u)@.len(),
            forall|i2: int|
                0 <= i2 < i ==> (#[trigger] u@[i2]) == dot_row_vec(*a, v@, i2, cols as int),
        decreases rows - i,
    {
        let mut acc: i64 = 0;
        let mut j: usize = 0;
        while j < cols
            invariant
                i < rows,
                j <= cols,
                u@.len() == old(u)@.len(),
                forall|i2: int|
                    0 <= i2 < i ==> (#[trigger] u@[i2]) == dot_row_vec(*a, v@, i2, cols as int),
                acc == dot_row_vec(*a, v@, i as int, j as int),
            decreases cols - j,
        {
            let av = a.get_unchecked(i, j);
            let vv = v[j];
            proof {
                lemma_dot_row_vec_bound(*a, v@, i as int, j as int);
                assert(-(1048576int * 1048576) <= (av as int) * (vv as int) <= 1048576int
                    * 1048576) by (nonlinear_arith)
                    requires
                        -1048576 <= av <= 1048576,
                        -1048576 <= vv <= 1048576,
                ;
            }
            acc = acc + av * vv;
            j = j + 1;
        }
        u.set(i, acc);
        i = i + 1;
    }
    Ok(())
}

} // verus!
