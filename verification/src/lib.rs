//! A small dense numerical linear algebra kernel.
//!
//! Matrices are stored in row-major contiguous memory and expose read-only
//! and write-capable views; matrix multiplication runs against those views
//! with an exactly stated accumulation contract.  A deterministic
//! linear-congruential generator supplies reproducible fill values, and a
//! benchmark schedule decides which iterations of a timing harness count.
//!
//! Entries are 64-bit integers, so every contract here is exact: the product
//! entry really is the stated sum of products, with overflow ruled out by
//! the entry and dimension bounds that the multiply requires.

pub mod bench;
pub mod operations;
pub mod rng;

use vstd::prelude::*;

verus! {

/// The ways an operation on a matrix or a view can fail.
#[derive(Clone, Copy, Debug, PartialEq, Eq, Structural)]
pub enum MatrixError {
    /// Operand shapes disagree: a factory was handed a buffer whose length
    /// does not match the declared shape, or multiply operands are pairwise
    /// incompatible.
    DimensionMismatch,
    /// A checked access was asked for an entry outside the declared bounds.
    OutOfRange,
    /// A write was asked of a read-only view.
    InvalidOperation,
}

/// Largest entry magnitude that the multiply routines accept.
pub const ENTRY_BOUND: i64 = 1048576;

/// Largest inner dimension that the multiply routines accept.  Together with
/// `ENTRY_BOUND` it keeps every accumulated dot product inside `i64`:
/// `DIM_BOUND * ENTRY_BOUND * ENTRY_BOUND` is 2^60.
pub const DIM_BOUND: usize = 1048576;

/// A flat row-major offset stays inside the buffer.
proof fn lemma_row_major_index(i: int, j: int, m: int, n: int)
    requires
        0 <= i < m,
        0 <= j < n,
    ensures
        0 <= i * n + j < m * n,
{
    assert(0 <= i * n + j < m * n) by (nonlinear_arith)
        requires
            0 <= i < m,
            0 <= j < n,
    ;
}

/// A flat row-major offset lands inside the backing buffer, whose length
/// fits in `usize`.
proof fn lemma_buffer_index(v: &Vec<i64>, i: int, j: int, m: int, n: int)
    requires
        v@.len() == m * n,
        0 <= i < m,
        0 <= j < n,
    ensures
        0 <= i * n + j < v@.len(),
        v@.len() <= usize::MAX,
{
    vstd::std_specs::vec::axiom_spec_len(v);
    lemma_row_major_index(i, j, m, n);
}

/// Distinct in-bounds coordinates map to distinct flat offsets.
proof fn lemma_row_major_injective(i1: int, j1: int, i2: int, j2: int, n: int)
    requires
        0 <= i1,
        0 <= i2,
        0 <= j1 < n,
        0 <= j2 < n,
        i1 * n + j1 == i2 * n + j2,
    ensures
        i1 == i2 && j1 == j2,
{
    assert(i1 == i2 && j1 == j2) by (nonlinear_arith)
        requires
            0 <= i1,
            0 <= i2,
            0 <= j1 < n,
            0 <= j2 < n,
            i1 * n + j1 == i2 * n + j2,
    ;
}

/// The shared indexing capability of a matrix and of its views.
///
/// `get` and `set` check bounds and report failure; `get_unchecked` and
/// `set_unchecked` skip the check and instead demand, as a precondition,
/// that the caller has already established the bounds.  A write to something
/// that is not writable (a read-only view) is a programming error: the
/// checked form reports it, the unchecked form forbids it outright.
pub trait MatrixIndex: Sized {
    /// Number of rows.
    spec fn rows(&self) -> int;

    /// Number of columns.
    spec fn cols(&self) -> int;

    /// The entry in row `i`, column `j`.
    spec fn entry(&self, i: int, j: int) -> i64;

    /// Whether writes are allowed.
    spec fn writable(&self) -> bool;

    /// The backing buffer matches the declared shape.
    spec fn wf(&self) -> bool;

    /// Get the entry at row `i`, column `j`, checking bounds.
    fn get(&self, i: usize, j: usize) -> (r: Result<i64, MatrixError>)
        requires
            self.wf(),
        ensures
            (i as int) < self.rows() && (j as int) < self.cols() ==> r == Ok::<
                i64,
                MatrixError,
            >(self.entry(i as int, j as int)),
            !((i as int) < self.rows() && (j as int) < self.cols()) ==> r == Err::<
                i64,
                MatrixError,
            >(MatrixError::OutOfRange),
    ;

    /// Set the entry at row `i`, column `j`, checking bounds and
    /// writability.  Nothing but the named entry changes, and on any error
    /// nothing changes at all.
    fn set(&mut self, i: usize, j: usize, value: i64) -> (r: Result<(), MatrixError>)
        requires
            old(self).wf(),
        ensures
            final(self).wf(),
            final(self).rows() == old(self).rows(),
            final(self).cols() == old(self).cols(),
            final(self).writable() == old(self).writable(),
            !old(self).writable() ==> r == Err::<(), MatrixError>(MatrixError::InvalidOperation),
            old(self).writable() && (i as int) < old(self).rows() && (j as int) < old(
                self,
            ).cols() ==> r == Ok::<(), MatrixError>(()),
            old(self).writable() && !((i as int) < old(self).rows() && (j as int) < old(
                self,
            ).cols()) ==> r == Err::<(), MatrixError>(MatrixError::OutOfRange),
            r is Ok ==> final(self).entry(i as int, j as int) == value,
            forall|i2: int, j2: int|
                0 <= i2 < old(self).rows() && 0 <= j2 < old(self).cols() && !(r is Ok && i2
                    == i as int && j2 == j as int) ==> (#[trigger] final(self).entry(i2, j2))
                    == old(self).entry(i2, j2),
    ;

    /// Get the entry at row `i`, column `j` without a bounds check: the
    /// caller must have already established `i < rows` and `j < cols`.
    fn get_unchecked(&self, i: usize, j: usize) -> (r: i64)
        requires
            self.wf(),
            (i as int) < self.rows(),
            (j as int) < self.cols(),
        ensures
            r == self.entry(i as int, j as int),
    ;

    /// Set the entry at row `i`, column `j` without a bounds check: the
    /// caller must have already established `i < rows`, `j < cols`, and
    /// that the target is writable.  Nothing but the named entry changes.
    fn set_unchecked(&mut self, i: usize, j: usize, value: i64)
        requires
            old(self).wf(),
            old(self).writable(),
            (i as int) < old(self).rows(),
            (j as int) < old(self).cols(),
        ensures
            final(self).wf(),
            final(self).rows() == old(self).rows(),
            final(self).cols() == old(self).cols(),
            final(self).writable() == old(self).writable(),
            final(self).entry(i as int, j as int) == value,
            forall|i2: int, j2: int|
                0 <= i2 < old(self).rows() && 0 <= j2 < old(self).cols() && !(i2 == i as int && j2
                    == j as int) ==> (#[trigger] final(self).entry(i2, j2)) == old(self).entry(
                    i2,
                    j2,
                ),
    ;
}

/// An owning dense matrix: `rows * cols` entries in row-major contiguous
/// memory, entry `(i, j)` at flat offset `i * cols + j`.
pub struct Matrix {
    /// Number of rows.
    pub m: usize,
    /// Number of columns.
    pub n: usize,
    /// The backing buffer, of length `m * n`.
    pub data: Vec<i64>,
}

/// A read-only, zero-copy view of a matrix: it borrows the backing buffer
/// of exactly one matrix and never outlives it.
#[derive(Clone, Copy)]
pub struct MatrixView<'a> {
    /// Number of rows.
    pub m: usize,
    /// Number of columns.
    pub n: usize,
    /// The borrowed backing buffer of the viewed matrix.
    pub data: &'a Vec<i64>,
}

/// A write-capable view of a matrix.
///
/// Exclusive access to the buffer is established structurally, by taking
/// ownership of it for the view's lifetime rather than by locking: the rows
/// partition the buffer into pairwise disjoint segments, so a write lands in
/// exactly one row and leaves every other row untouched (the frame clauses
/// of `set` and `set_unchecked` state just that).  `into_matrix` hands the
/// buffer back.
pub struct MatrixViewMut {
    /// Number of rows.
    pub m: usize,
    /// Number of columns.
    pub n: usize,
    /// The owned backing buffer.
    pub data: Vec<i64>,
}

impl Matrix {
    /// The row-major sequence of entries.
    pub open spec fn entries(&self) -> Seq<i64> {
        self.data@
    }

    /// Create a matrix from a flat row-major buffer, adopting the buffer as
    /// backing storage; the buffer's length must match the declared shape.
    pub fn from_vec(m: usize, n: usize, data: Vec<i64>) -> (r: Result<Matrix, MatrixError>)
        ensures
            r is Ok <==> data@.len() == m * n,
            r matches Ok(mat) ==> mat.wf() && mat.m == m && mat.n == n && mat.entries() == data@,
            r is Err ==> r == Err::<Matrix, MatrixError>(MatrixError::DimensionMismatch),
    {
        proof {
            vstd::std_specs::vec::axiom_spec_len(&data);
        }
        match m.checked_mul(n) {
            Some(len) => {
                if len == data.len() {
                    Ok(Matrix { m, n, data })
                } else {
                    Err(MatrixError::DimensionMismatch)
                }
            },
            None => Err(MatrixError::DimensionMismatch),
        }
    }

    /// Create a matrix with every entry zero.
    pub fn zero(m: usize, n: usize) -> (r: Matrix)
        requires
            m * n <= usize::MAX,
        ensures
            r.wf(),
            r.m == m,
            r.n == n,
            forall|i: int, j: int|
                0 <= i < m && 0 <= j < n ==> (#[trigger] r.entry(i, j)) == 0,
    {
        let total = m * n;
        let mut data: Vec<i64> = Vec::new();
        let mut idx: usize = 0;
        while idx < total
            invariant
                idx <= total,
                data@.len() == idx,
                forall|p: int| 0 <= p < idx ==> data@[p] == 0,
            decreases total - idx,
        {
            data.push(0);
            idx = idx + 1;
        }
        let r = Matrix { m, n, data };
        proof {
            assert forall|i: int, j: int|
                0 <= i < m && 0 <= j < n implies (#[trigger] r.entry(i, j)) == 0 by {
                lemma_row_major_index(i, j, m as int, n as int);
            }
        }
        r
    }

    /// Create a matrix whose entries are unit-interval draws from the
    /// generator, scaled by 2^15 into integers in `[0, 32768)`.
    ///
    /// The generator is drawn from exactly once per entry, in row-major
    /// order, so a seed pins the whole fill: entry `k` is the sample taken
    /// after `2 * k` steps of the recurrence (each sample advances the state
    /// twice).
    pub fn rand(m: usize, n: usize, rng: &mut rng::RNG) -> (r: Matrix)
        requires
            m * n <= usize::MAX,
            old(rng).wf(),
        ensures
            final(rng).wf(),
            final(rng).state() == rng::lcg_iter(old(rng).state(), 2 * (m * n) as nat),
            r.wf(),
            r.m == m,
            r.n == n,
            forall|k: int|
                0 <= k < m * n ==> (#[trigger] r.entries()[k]) == rng::sample_scaled(
                    rng::lcg_iter(old(rng).state(), (2 * k) as nat),
                ),
            forall|i: int, j: int|
                0 <= i < m && 0 <= j < n ==> 0 <= (#[trigger] r.entry(i, j)) < 32768,
    {
        let ghost s0 = rng.state();
        let total = m * n;
        let mut data: Vec<i64> = Vec::new();
        let mut idx: usize = 0;
        while idx < total
            invariant
                idx <= total,
                data@.len() == idx,
                rng.wf(),
                rng.state() == rng::lcg_iter(s0, (2 * idx) as nat),
                forall|k: int|
                    0 <= k < idx ==> (#[trigger] data@[k]) == rng::sample_scaled(
                        rng::lcg_iter(s0, (2 * k) as nat),
                    ),
                forall|k: int| 0 <= k < idx ==> 0 <= #[trigger] data@[k] < 32768,
            decreases total - idx,
        {
            let ghost s_here = rng.state();
            let (num, den) = rng.rand_fraction();
            proof {
                assert(rng::lcg_iter(s0, (2 * idx + 1) as nat) == rng::lcg_next(s_here));
                assert(rng::lcg_iter(s0, (2 * idx + 2) as nat) == rng::lcg_next(
                    rng::lcg_next(s_here),
                ));
            }
            let scale = 32768 / den;
            proof {
                vstd::arithmetic::div_mod::lemma_fundamental_div_mod(32768, den as int);
                assert((den as int) * (scale as int) == 32768);
                assert(0 <= (num as int) * (scale as int) < 32768) by (nonlinear_arith)
                    requires
                        0 <= num < den,
                        (den as int) * (scale as int) == 32768int,
                ;
            }
            let entry = num * scale;
            data.push(entry);
            idx = idx + 1;
        }
        let r = Matrix { m, n, data };
        proof {
            assert forall|i: int, j: int|
                0 <= i < m && 0 <= j < n implies 0 <= (#[trigger] r.entry(i, j)) < 32768 by {
                lemma_row_major_index(i, j, m as int, n as int);
            }
        }
        r
    }

    /// Return the backing buffer.
    pub fn to_vec(self) -> (r: Vec<i64>)
        ensures
            r@ == self.entries(),
    {
        self.data
    }

    /// Borrow the whole matrix as a read-only view, without copying.
    pub fn view<'a>(&'a self) -> (v: MatrixView<'a>)
        requires
            self.wf(),
        ensures
            v.wf(),
            v.m == self.m,
            v.n == self.n,
            forall|i: int, j: int|
                0 <= i < self.rows() && 0 <= j < self.cols() ==> (#[trigger] v.entry(i, j))
                    == self.entry(i, j),
    {
        MatrixView { m: self.m, n: self.n, data: &self.data }
    }

    /// Turn the matrix into a write-capable view, handing the backing
    /// buffer over without copying.  Exclusive access for the view's
    /// lifetime comes from the transfer of ownership; `into_matrix` on the
    /// view restores the matrix.
    pub fn view_mut(self) -> (v: MatrixViewMut)
        requires
            self.wf(),
        ensures
            v.wf(),
            v.m == self.m,
            v.n == self.n,
            forall|i: int, j: int|
                0 <= i < self.rows() && 0 <= j < self.cols() ==> (#[trigger] v.entry(i, j))
                    == self.entry(i, j),
    {
        MatrixViewMut { m: self.m, n: self.n, data: self.data }
    }
}

impl MatrixViewMut {
    /// The row-major sequence of entries.
    pub open spec fn entries(&self) -> Seq<i64> {
        self.data@
    }

    /// Hand the backing buffer back as an owning matrix.
    pub fn into_matrix(self) -> (r: Matrix)
        requires
            self.wf(),
        ensures
            r.wf(),
            r.m == self.m,
            r.n == self.n,
            forall|i: int, j: int|
                0 <= i < self.rows() && 0 <= j < self.cols() ==> (#[trigger] r.entry(i, j))
                    == self.entry(i, j),
    {
        Matrix { m: self.m, n: self.n, data: self.data }
    }
}

impl MatrixIndex for Matrix {
    open spec fn rows(&self) -> int {
        self.m as int
    }

    open spec fn cols(&self) -> int {
        self.n as int
    }

    open spec fn entry(&self, i: int, j: int) -> i64 {
        self.entries()[i * self.cols() + j]
    }

    open spec fn writable(&self) -> bool {
        true
    }

    open spec fn wf(&self) -> bool {
        self.entries().len() == self.rows() * self.cols()
    }

    fn get(&self, i: usize, j: usize) -> Result<i64, MatrixError> {
        if i < self.m && j < self.n {
            proof {
                lemma_buffer_index(&self.data, i as int, j as int, self.m as int, self.n as int);
            }
            Ok(self.data[i * self.n + j])
        } else {
            Err(MatrixError::OutOfRange)
        }
    }

    fn set(&mut self, i: usize, j: usize, value: i64) -> Result<(), MatrixError> {
        if i < self.m && j < self.n {
            proof {
                lemma_buffer_index(&self.data, i as int, j as int, self.m as int, self.n as int);
            }
            self.data.set(i * self.n + j, value);
            proof {
                assert forall|i2: int, j2: int|
                    0 <= i2 < old(self).rows() && 0 <= j2 < old(self).cols() && !(i2 == i as int
                        && j2 == j as int) implies (#[trigger] self.entry(i2, j2)) == old(
                    self,
                ).entry(i2, j2) by {
                    lemma_row_major_index(i2, j2, self.m as int, self.n as int);
                    if i2 * (self.n as int) + j2 == (i as int) * (self.n as int) + (j as int) {
                        lemma_row_major_injective(i2, j2, i as int, j as int, self.n as int);
                    }
                }
            }
            Ok(())
        } else {
            Err(MatrixError::OutOfRange)
        }
    }

    fn get_unchecked(&self, i: usize, j: usize) -> i64 {
        proof {
            lemma_buffer_index(&self.data, i as int, j as int, self.m as int, self.n as int);
        }
        self.data[i * self.n + j]
    }

    fn set_unchecked(&mut self, i: usize, j: usize, value: i64) {
        proof {
            lemma_buffer_index(&self.data, i as int, j as int, self.m as int, self.n as int);
        }
        self.data.set(i * self.n + j, value);
        proof {
            assert forall|i2: int, j2: int|
                0 <= i2 < old(self).rows() && 0 <= j2 < old(self).cols() && !(i2 == i as int && j2
                    == j as int) implies (#[trigger] self.entry(i2, j2)) == old(self).entry(
                i2,
                j2,
            ) by {
                lemma_row_major_index(i2, j2, self.m as int, self.n as int);
                if i2 * (self.n as int) + j2 == (i as int) * (self.n as int) + (j as int) {
                    lemma_row_major_injective(i2, j2, i as int, j as int, self.n as int);
                }
            }
        }
    }
}

impl<'a> MatrixView<'a> {
    /// The row-major sequence of entries of the viewed matrix.
    pub open spec fn entries(&self) -> Seq<i64> {
        self.data@
    }
}

impl<'a> MatrixIndex for MatrixView<'a> {
    open spec fn rows(&self) -> int {
        self.m as int
    }

    open spec fn cols(&self) -> int {
        self.n as int
    }

    open spec fn entry(&self, i: int, j: int) -> i64 {
        self.entries()[i * self.cols() + j]
    }

    open spec fn writable(&self) -> bool {
        false
    }

    open spec fn wf(&self) -> bool {
        self.entries().len() == self.rows() * self.cols()
    }

    fn get(&self, i: usize, j: usize) -> Result<i64, MatrixError> {
        if i < self.m && j < self.n {
            proof {
                lemma_buffer_index(&self.data, i as int, j as int, self.m as int, self.n as int);
            }
            Ok(self.data[i * self.n + j])
        } else {
            Err(MatrixError::OutOfRange)
        }
    }

    fn set(&mut self, _i: usize, _j: usize, _value: i64) -> Result<(), MatrixError> {
        Err(MatrixError::InvalidOperation)
    }

    fn get_unchecked(&self, i: usize, j: usize) -> i64 {
        proof {
            lemma_buffer_index(&self.data, i as int, j as int, self.m as int, self.n as int);
        }
        self.data[i * self.n + j]
    }

    fn set_unchecked(&mut self, _i: usize, _j: usize, _value: i64) {
        // Never reached: a read-only view is not writable, which the
        // precondition demands.
    }
}

impl MatrixIndex for MatrixViewMut {
    open spec fn rows(&self) -> int {
        self.m as int
    }

    open spec fn cols(&self) -> int {
        self.n as int
    }

    open spec fn entry(&self, i: int, j: int) -> i64 {
        self.entries()[i * self.cols() + j]
    }

    open spec fn writable(&self) -> bool {
        true
    }

    open spec fn wf(&self) -> bool {
        self.entries().len() == self.rows() * self.cols()
    }

    fn get(&self, i: usize, j: usize) -> Result<i64, MatrixError> {
        if i < self.m && j < self.n {
            proof {
                lemma_buffer_index(&self.data, i as int, j as int, self.m as int, self.n as int);
            }
            Ok(self.data[i * self.n + j])
        } else {
            Err(MatrixError::OutOfRange)
        }
    }

    fn set(&mut self, i: usize, j: usize, value: i64) -> Result<(), MatrixError> {
        if i < self.m && j < self.n {
            proof {
                lemma_buffer_index(&self.data, i as int, j as int, self.m as int, self.n as int);
            }
            self.data.set(i * self.n + j, value);
            proof {
                assert forall|i2: int, j2: int|
                    0 <= i2 < old(self).rows() && 0 <= j2 < old(self).cols() && !(i2 == i as int
                        && j2 == j as int) implies (#[trigger] self.entry(i2, j2)) == old(
                    self,
                ).entry(i2, j2) by {
                    lemma_row_major_index(i2, j2, self.m as int, self.n as int);
                    if i2 * (self.n as int) + j2 == (i as int) * (self.n as int) + (j as int) {
                        lemma_row_major_injective(i2, j2, i as int, j as int, self.n as int);
                    }
                }
            }
            Ok(())
        } else {
            Err(MatrixError::OutOfRange)
        }
    }

    fn get_unchecked(&self, i: usize, j: usize) -> i64 {
        proof {
            lemma_buffer_index(&self.data, i as int, j as int, self.m as int, self.n as int);
        }
        self.data[i * self.n + j]
    }

    fn set_unchecked(&mut self, i: usize, j: usize, value: i64) {
        proof {
            lemma_buffer_index(&self.data, i as int, j as int, self.m as int, self.n as int);
        }
        self.data.set(i * self.n + j, value);
        proof {
            assert forall|i2: int, j2: int|
                0 <= i2 < old(self).rows() && 0 <= j2 < old(self).cols() && !(i2 == i as int && j2
                    == j as int) implies (#[trigger] self.entry(i2, j2)) == old(self).entry(
                i2,
                j2,
            ) by {
                lemma_row_major_index(i2, j2, self.m as int, self.n as int);
                if i2 * (self.n as int) + j2 == (i as int) * (self.n as int) + (j as int) {
                    lemma_row_major_injective(i2, j2, i as int, j as int, self.n as int);
                }
            }
        }
    }
}

/// The multiply operands are pairwise compatible: the left operand's rows
/// and the right operand's columns match the output, and the left operand's
/// columns match the right operand's rows.
pub open spec fn dims_ok(a: MatrixView, b: MatrixView, c: MatrixViewMut) -> bool {
    &&& a.rows() == c.rows()
    &&& a.cols() == b.rows()
    &&& b.cols() == c.cols()
}

/// Every entry of the view lies within `ENTRY_BOUND` in magnitude.
pub open spec fn entries_bounded(v: MatrixView) -> bool {
    forall|i: int, j: int|
        0 <= i < v.rows() && 0 <= j < v.cols() ==> -(ENTRY_BOUND as int) <= (
        #[trigger] v.entry(i, j)) <= ENTRY_BOUND as int
}

/// The dot product of the first `k` terms of row `i` of `a` with column `j`
/// of `b`: the exact value that the multiply accumulates into output entry
/// `(i, j)`.
pub open spec fn dot(a: MatrixView, b: MatrixView, i: int, j: int, k: int) -> int
    decreases k,
{
    if k <= 0 {
        0
    } else {
        dot(a, b, i, j, k - 1) + a.entry(i, k - 1) * b.entry(k - 1, j)
    }
}

/// A partial dot product of `k` bounded entries stays within `k` times the
/// largest possible term.
proof fn lemma_dot_bound(a: MatrixView, b: MatrixView, i: int, j: int, k: int)
    requires
        0 <= i < a.rows(),
        0 <= j < b.cols(),
        0 <= k <= a.cols(),
        a.cols() == b.rows(),
        entries_bounded(a),
        entries_bounded(b),
    ensures
        -(k * (ENTRY_BOUND as int) * (ENTRY_BOUND as int)) <= dot(a, b, i, j, k) <= k * (
        ENTRY_BOUND as int) * (ENTRY_BOUND as int),
    decreases k,
{
    if k > 0 {
        lemma_dot_bound(a, b, i, j, k - 1);
        let x = a.entry(i, k - 1) as int;
        let y = b.entry(k - 1, j) as int;
        assert(-(1048576int * 1048576) <= x * y <= 1048576int * 1048576) by (nonlinear_arith)
            requires
                -1048576 <= x <= 1048576,
                -1048576 <= y <= 1048576,
        ;
    }
}

/// Law: a zero left operand annihilates the product.  When every entry of
/// `a` is zero, every dot product of a row of `a` with a column of `b` is
/// zero, so the multiply yields an all-zero output.
pub proof fn lemma_zero_annihilation(a: MatrixView, b: MatrixView, i: int, j: int, k: int)
    requires
        0 <= i < a.rows(),
        0 <= k <= a.cols(),
        a.cols() == b.rows(),
        forall|i2: int, j2: int|
            0 <= i2 < a.rows() && 0 <= j2 < a.cols() ==> (#[trigger] a.entry(i2, j2)) == 0,
    ensures
        dot(a, b, i, j, k) == 0,
    decreases k,
{
    if k > 0 {
        lemma_zero_annihilation(a, b, i, j, k - 1);
        assert(a.entry(i, k - 1) == 0);
    }
}

/// Law: the rows of a write-capable view partition the buffer into disjoint
/// segments, so a write into one row is never observed through another: a
/// buffer updated at `(i1, j1)` reads at `(i2, j2)` of a different row
/// exactly as it did before the write.
pub proof fn lemma_disjoint_row_writes(
    v: MatrixViewMut,
    i1: int,
    j1: int,
    x: i64,
    i2: int,
    j2: int,
)
    requires
        v.wf(),
        0 <= i1 < v.rows(),
        0 <= j1 < v.cols(),
        0 <= i2 < v.rows(),
        0 <= j2 < v.cols(),
        i1 != i2,
    ensures
        v.entries().update(i1 * v.cols() + j1, x)[i2 * v.cols() + j2] == v.entry(i2, j2),
{
    lemma_row_major_index(i1, j1, v.rows(), v.cols());
    lemma_row_major_index(i2, j2, v.rows(), v.cols());
    if i1 * v.cols() + j1 == i2 * v.cols() + j2 {
        lemma_row_major_injective(i1, j1, i2, j2, v.cols());
    }
}

/// Multiply `a` by `b` into `c`: `c[i][j]` becomes the dot product of row
/// `i` of `a` with column `j` of `b`, accumulated term by term in the order
/// `k = 0, 1, ...` of the inner dimension.
///
/// The shapes are checked before anything is written: on a mismatch the
/// output is left exactly as it was.  The loop nest runs `i` outermost,
/// then `k` over the inner dimension, then `j` over the output columns, so
/// the innermost loop walks row `k` of `b` and row `i` of `c` contiguously
/// while the `a[i][k]` factor stays fixed — a cache-friendly order that, in
/// exact integer arithmetic, accumulates the same value as any other.
#[verifier::loop_isolation(false)]
pub fn matmul(a: &MatrixView, b: &MatrixView, c: &mut MatrixViewMut) -> (r: Result<
    (),
    MatrixError,
>)
    requires
        a.wf(),
        b.wf(),
        old(c).wf(),
        dims_ok(*a, *b, *old(c)) ==> a.cols() <= DIM_BOUND as int && entries_bounded(*a)
            && entries_bounded(*b),
    ensures
        final(c).wf(),
        final(c).m == old(c).m,
        final(c).n == old(c).n,
        r is Ok <==> dims_ok(*a, *b, *old(c)),
        !dims_ok(*a, *b, *old(c)) ==> r == Err::<(), MatrixError>(MatrixError::DimensionMismatch)
            && final(c).entries() == old(c).entries(),
        dims_ok(*a, *b, *old(c)) ==> forall|i: int, j: int|
            0 <= i < final(c).rows() && 0 <= j < final(c).cols() ==> (#[trigger] final(c).entry(
                i,
                j,
            )) == dot(*a, *b, i, j, a.cols()),
{
    if !(a.m == c.m && a.n == b.m && b.n == c.n) {
        return Err(MatrixError::DimensionMismatch);
    }
    let rows = c.m;
    let cols = c.n;
    let inner = a.n;

    let mut i: usize = 0;
    while i < rows
        invariant
            i <= rows,
            c.wf(),
            c.m == old(c).m,
            c.n == old(c).n,
            forall|i2: int, j2: int|
                0 <= i2 < i && 0 <= j2 < cols ==> (#[trigger] c.entry(i2, j2)) == 0,
        decreases rows - i,
    {
        let mut j: usize = 0;
        while j < cols
            invariant
                i < rows,
                j <= cols,
                c.wf(),
                c.m == old(c).m,
                c.n == old(c).n,
                forall|i2: int, j2: int|
                    0 <= i2 < i && 0 <= j2 < cols ==> (#[trigger] c.entry(i2, j2)) == 0,
                forall|j2: int| 0 <= j2 < j ==> (#[trigger] c.entry(i as int, j2)) == 0,
            decreases cols - j,
        {
            c.set_unchecked(i, j, 0);
            j = j + 1;
        }
        i = i + 1;
    }

    let mut i: usize = 0;
    while i < rows
        invariant
            i <= rows,
            c.wf(),
            c.m == old(c).m,
            c.n == old(c).n,
            forall|i2: int, j2: int|
                0 <= i2 < i && 0 <= j2 < cols ==> (#[trigger] c.entry(i2, j2)) == dot(
                    *a,
                    *b,
                    i2,
                    j2,
                    inner as int,
                ),
            forall|i2: int, j2: int|
                i <= i2 < rows && 0 <= j2 < cols ==> (#[trigger] c.entry(i2, j2)) == 0,
        decreases rows - i,
    {
        let mut k: usize = 0;
        while k < inner
            invariant
                i < rows,
                k <= inner,
                c.wf(),
                c.m == old(c).m,
                c.n == old(c).n,
                forall|i2: int, j2: int|
                    0 <= i2 < i && 0 <= j2 < cols ==> (#[trigger] c.entry(i2, j2)) == dot(
                        *a,
                        *b,
                        i2,
                        j2,
                        inner as int,
                    ),
                forall|i2: int, j2: int|
                    i < i2 < rows && 0 <= j2 < cols ==> (#[trigger] c.entry(i2, j2)) == 0,
                forall|j2: int|
                    0 <= j2 < cols ==> (#[trigger] c.entry(i as int, j2)) == dot(
                        *a,
                        *b,
                        i as int,
                        j2,
                        k as int,
                    ),
            decreases inner - k,
        {
            let av = a.get_unchecked(i, k);
            let mut j: usize = 0;
            while j < cols
                invariant
                    i < rows,
                    k < inner,
                    j <= cols,
                    av == a.entry(i as int, k as int),
                    c.wf(),
                    c.m == old(c).m,
                    c.n == old(c).n,
                    forall|i2: int, j2: int|
                        0 <= i2 < i && 0 <= j2 < cols ==> (#[trigger] c.entry(i2, j2)) == dot(
                            *a,
                            *b,
                            i2,
                            j2,
                            inner as int,
                        ),
                    forall|i2: int, j2: int|
                        i < i2 < rows && 0 <= j2 < cols ==> (#[trigger] c.entry(i2, j2)) == 0,
                    forall|j2: int|
                        0 <= j2 < j ==> (#[trigger] c.entry(i as int, j2)) == dot(
                            *a,
                            *b,
                            i as int,
                            j2,
                            k as int + 1,
                        ),
                    forall|j2: int|
                        j <= j2 < cols ==> (#[trigger] c.entry(i as int, j2)) == dot(
                            *a,
                            *b,
                            i as int,
                            j2,
                            k as int,
                        ),
                decreases cols - j,
            {
                let bv = b.get_unchecked(k, j);
                let cur = c.get_unchecked(i, j);
                proof {
                    lemma_dot_bound(*a, *b, i as int, j as int, k as int);
                    assert(-(1048576int * 1048576) <= (av as int) * (bv as int) <= 1048576int
                        * 1048576) by (nonlinear_arith)
                        requires
                            -1048576 <= av <= 1048576,
                            -1048576 <= bv <= 1048576,
                    ;
                }
                let sum = cur + av * bv;
                c.set_unchecked(i, j, sum);
                j = j + 1;
            }
            k = k + 1;
        }
        i = i + 1;
    }
    Ok(())
}

} // verus!
