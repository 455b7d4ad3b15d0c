//! Dense vectors and row-major matrices of fixed-point values, with
//! the elementwise and product operations the network needs.  Every
//! executable operation is pinned to a spec-level counterpart defined
//! over mathematical integer sequences.

use vstd::prelude::*;

use crate::fixed::{add_fix, div_fix, fadd, fmul, fsub, mul_fix, sub_fix, tdiv};

verus! {

/// A sequence of machine words read as mathematical integers.
pub open spec fn ints(v: Seq<i64>) -> Seq<int> {
    v.map_values(|x: i64| x as int)
}

/// Dot product of the first n entries.
pub open spec fn spec_dot_prefix(row: Seq<int>, x: Seq<int>, n: int) -> int
    decreases n,
{
    if n <= 0 {
        0
    } else {
        fadd(spec_dot_prefix(row, x, n - 1), fmul(row[n - 1], x[n - 1]))
    }
}

/// Fixed-point dot product, accumulated left to right.
pub open spec fn spec_dot(row: Seq<int>, x: Seq<int>) -> int {
    spec_dot_prefix(row, x, row.len() as int)
}

/// Matrix-vector product.
pub open spec fn spec_matvec(w: Seq<Seq<int>>, x: Seq<int>) -> Seq<int> {
    Seq::new(w.len(), |i: int| spec_dot(w[i], x))
}

/// Elementwise fixed-point sum.
pub open spec fn spec_zip_add(a: Seq<int>, b: Seq<int>) -> Seq<int> {
    Seq::new(a.len(), |i: int| fadd(a[i], b[i]))
}

/// Elementwise fixed-point difference.
pub open spec fn spec_zip_sub(a: Seq<int>, b: Seq<int>) -> Seq<int> {
    Seq::new(a.len(), |i: int| fsub(a[i], b[i]))
}

/// Elementwise (Hadamard) fixed-point product.
pub open spec fn spec_zip_mul(a: Seq<int>, b: Seq<int>) -> Seq<int> {
    Seq::new(a.len(), |i: int| fmul(a[i], b[i]))
}

/// Dot product of column j of w with d, over the first n rows.
pub open spec fn spec_col_dot_prefix(w: Seq<Seq<int>>, d: Seq<int>, j: int, n: int) -> int
    decreases n,
{
    if n <= 0 {
        0
    } else {
        fadd(spec_col_dot_prefix(w, d, j, n - 1), fmul(w[n - 1][j], d[n - 1]))
    }
}

/// Transposed matrix-vector product with explicit column count.
pub open spec fn spec_tmatvec(w: Seq<Seq<int>>, d: Seq<int>, cols: nat) -> Seq<int> {
    Seq::new(cols, |j: int| spec_col_dot_prefix(w, d, j, w.len() as int))
}

/// Outer product d (x) a.
pub open spec fn spec_outer(d: Seq<int>, a: Seq<int>) -> Seq<Seq<int>> {
    Seq::new(d.len(), |i: int| Seq::new(a.len(), |j: int| fmul(d[i], a[j])))
}

/// Elementwise fixed-point sum of matrices.
pub open spec fn spec_mat_add(m1: Seq<Seq<int>>, m2: Seq<Seq<int>>) -> Seq<Seq<int>> {
    Seq::new(m1.len(), |i: int| spec_zip_add(m1[i], m2[i]))
}

/// Elementwise fixed-point difference of matrices.
pub open spec fn spec_mat_sub(m1: Seq<Seq<int>>, m2: Seq<Seq<int>>) -> Seq<Seq<int>> {
    Seq::new(m1.len(), |i: int| spec_zip_sub(m1[i], m2[i]))
}

/// An all-zero vector.
pub open spec fn zero_vec(n: nat) -> Seq<int> {
    Seq::new(n, |i: int| 0int)
}

/// An all-zero matrix.
pub open spec fn zero_mat(rows: nat, cols: nat) -> Seq<Seq<int>> {
    Seq::new(rows, |i: int| zero_vec(cols))
}

/// Gradient scaling: multiply by the learning rate, then divide by the
/// batch size, rounding toward zero.
pub open spec fn spec_scale_val(eta: int, n: int, v: int) -> int {
    tdiv(fmul(eta, v), n)
}

/// A matrix with that scaling applied elementwise.
pub open spec fn spec_scale_mat(eta: int, n: int, m: Seq<Seq<int>>) -> Seq<Seq<int>> {
    Seq::new(m.len(), |i: int| Seq::new(m[i].len(), |j: int| spec_scale_val(eta, n, m[i][j])))
}

/// A vector with that scaling applied elementwise.
pub open spec fn spec_scale_vec(eta: int, n: int, v: Seq<int>) -> Seq<int> {
    Seq::new(v.len(), |i: int| spec_scale_val(eta, n, v[i]))
}

/// Sum of squares of the first n entries.
pub open spec fn spec_sumsq_prefix(v: Seq<int>, n: int) -> int
    decreases n,
{
    if n <= 0 {
        0
    } else {
        fadd(spec_sumsq_prefix(v, n - 1), fmul(v[n - 1], v[n - 1]))
    }
}

/// Fixed-point sum of squares, accumulated left to right.
pub open spec fn spec_sumsq(v: Seq<int>) -> int {
    spec_sumsq_prefix(v, v.len() as int)
}

/// A sum of squares is never negative.
pub proof fn lemma_sumsq_prefix_nonneg(v: Seq<int>, n: int)
    ensures
        0 <= spec_sumsq_prefix(v, n) <= crate::fixed::CAP as int,
    decreases n,
{
    if n > 0 {
        lemma_sumsq_prefix_nonneg(v, n - 1);
        let x = v[n - 1];
        assert(x * x >= 0) by (nonlinear_arith);
        crate::fixed::lemma_tdiv_bounds(x * x, crate::fixed::SCALE as int);
    }
}

/// A row-major matrix of fixed-point values.
pub struct Matrix {
    rows: usize,
    cols: usize,
    data: Vec<i64>,
}

impl View for Matrix {
    type V = Seq<Seq<int>>;

    closed spec fn view(&self) -> Seq<Seq<int>> {
        Seq::new(
            self.rows as nat,
            |i: int| Seq::new(self.cols as nat, |j: int| self.data[i * self.cols + j] as int),
        )
    }
}

impl Matrix {
    /// Shape and storage agree.
    pub closed spec fn wf(&self) -> bool {
        self.data@.len() == self.rows * self.cols
    }

    /// The column count, meaningful even with zero rows.
    pub closed spec fn spec_cols(&self) -> nat {
        self.cols as nat
    }

    pub open spec fn spec_rows(&self) -> nat {
        self@.len()
    }

    /// A well-formed matrix's entry count fits in a machine word.
    pub proof fn lemma_size(&self)
        requires
            self.wf(),
        ensures
            self.spec_rows() * self.spec_cols() <= usize::MAX,
    {
        vstd::std_specs::vec::axiom_spec_len(&self.data);
    }

    /// Every row of the view has the declared column count.
    pub proof fn lemma_shape(&self)
        ensures
            forall|i: int| 0 <= i < self@.len() ==> (#[trigger] self@[i]).len() == self.spec_cols(),
    {
    }

    proof fn lemma_idx(&self, i: int, j: int)
        requires
            self.wf(),
            0 <= i < self.rows,
            0 <= j < self.cols,
        ensures
            0 <= i * self.cols + j < self.data@.len(),
            self.data@.len() <= usize::MAX,
            self@[i][j] == self.data@[i * self.cols + j] as int,
    {
        vstd::std_specs::vec::axiom_spec_len(&self.data);
        assert(0 <= i * self.cols + j && (i * self.cols + j) < self.rows * self.cols)
            by (nonlinear_arith)
            requires
                0 <= i < self.rows as int,
                0 <= j < self.cols as int,
        ;
    }

    pub fn rows(&self) -> (r: usize)
        ensures
            r == self.spec_rows(),
    {
        self.rows
    }

    pub fn cols(&self) -> (r: usize)
        ensures
            r == self.spec_cols(),
    {
        self.cols
    }

    /// An all-zero matrix of the given shape.
    pub fn zeros(rows: usize, cols: usize) -> (r: Matrix)
        requires
            rows * cols <= usize::MAX,
        ensures
            r.wf(),
            r@ == zero_mat(rows as nat, cols as nat),
            r.spec_cols() == cols,
            r.spec_rows() == rows,
    {
        proof {
            assert(rows * cols >= 0) by (nonlinear_arith)
                requires
                    rows as int >= 0 && cols as int >= 0,
            ;
        }
        let total: usize = rows * cols;
        let mut data: Vec<i64> = Vec::new();
        let mut t: usize = 0;
        while t < total
            invariant
                t <= total,
                data@.len() == t,
                forall|q: int| 0 <= q < t ==> data@[q] == 0i64,
            decreases total - t,
        {
            data.push(0);
            t = t + 1;
        }
        let r = Matrix { rows, cols, data };
        proof {
            assert forall|i: int| 0 <= i < rows implies r@[i] =~= zero_vec(cols as nat) by {
                assert forall|j: int| 0 <= j < cols implies r@[i][j] == 0int by {
                    r.lemma_idx(i, j);
                }
            }
            assert(r@ =~= zero_mat(rows as nat, cols as nat));
        }
        r
    }

    /// Builds a matrix from row-major storage.
    pub fn from_vec(rows: usize, cols: usize, data: Vec<i64>) -> (r: Matrix)
        requires
            data@.len() == rows * cols,
        ensures
            r.wf(),
            r.spec_cols() == cols,
            r.spec_rows() == rows,
            forall|i: int, j: int|
                0 <= i < rows && 0 <= j < cols ==> r@[i][j] == data@[i * cols + j] as int,
    {
        let r = Matrix { rows, cols, data };
        proof {
            assert forall|i: int, j: int| 0 <= i < rows && 0 <= j < cols implies r@[i][j]
                == r.data@[i * cols + j] as int by {
                r.lemma_idx(i, j);
            }
        }
        r
    }

    /// Reads one entry.
    pub fn get(&self, i: usize, j: usize) -> (r: i64)
        requires
            self.wf(),
            i < self.spec_rows(),
            j < self.spec_cols(),
        ensures
            r as int == self@[i as int][j as int],
    {
        proof {
            self.lemma_idx(i as int, j as int);
        }
        self.data[i * self.cols + j]
    }

    /// The matrix-vector product W x.
    pub fn mat_vec(&self, x: &Vec<i64>) -> (r: Vec<i64>)
        requires
            self.wf(),
            x@.len() == self.spec_cols(),
        ensures
            ints(r@) == spec_matvec(self@, ints(x@)),
            r@.len() == self.spec_rows(),
    {
        let rows = self.rows;
        let cols = self.cols;
        let mut r: Vec<i64> = Vec::new();
        let mut i: usize = 0;
        while i < rows
            invariant
                i <= rows,
                rows == self.spec_rows(),
                cols == self.spec_cols(),
                self.wf(),
                x@.len() == cols,
                r@.len() == i,
                forall|q: int| 0 <= q < i ==> r@[q] as int == spec_dot(self@[q], ints(x@)),
            decreases rows - i,
        {
            let mut acc: i64 = 0;
            let mut j: usize = 0;
            while j < cols
                invariant
                    j <= cols,
                    i < rows,
                    rows == self.spec_rows(),
                    cols == self.spec_cols(),
                    self.wf(),
                    x@.len() == cols,
                    acc as int == spec_dot_prefix(self@[i as int], ints(x@), j as int),
                decreases cols - j,
            {
                proof {
                    self.lemma_idx(i as int, j as int);
                }
                let w = self.data[i * cols + j];
                acc = add_fix(acc, mul_fix(w, x[j]));
                j = j + 1;
            }
            r.push(acc);
            i = i + 1;
        }
        proof {
            assert(ints(r@) =~= spec_matvec(self@, ints(x@)));
        }
        r
    }

    /// The transposed product W^T d.
    pub fn tmat_vec(&self, d: &Vec<i64>) -> (r: Vec<i64>)
        requires
            self.wf(),
            d@.len() == self.spec_rows(),
        ensures
            ints(r@) == spec_tmatvec(self@, ints(d@), self.spec_cols()),
            r@.len() == self.spec_cols(),
    {
        let rows = self.rows;
        let cols = self.cols;
        let mut r: Vec<i64> = Vec::new();
        let mut j: usize = 0;
        while j < cols
            invariant
                j <= cols,
                rows == self.spec_rows(),
                cols == self.spec_cols(),
                self.wf(),
                d@.len() == rows,
                r@.len() == j,
                forall|q: int|
                    0 <= q < j ==> r@[q] as int == spec_col_dot_prefix(
                        self@,
                        ints(d@),
                        q,
                        rows as int,
                    ),
            decreases cols - j,
        {
            let mut acc: i64 = 0;
            let mut i: usize = 0;
            while i < rows
                invariant
                    i <= rows,
                    j < cols,
                    rows == self.spec_rows(),
                    cols == self.spec_cols(),
                    self.wf(),
                    d@.len() == rows,
                    acc as int == spec_col_dot_prefix(self@, ints(d@), j as int, i as int),
                decreases rows - i,
            {
                proof {
                    self.lemma_idx(i as int, j as int);
                }
                let w = self.data[i * cols + j];
                acc = add_fix(acc, mul_fix(w, d[i]));
                i = i + 1;
            }
            r.push(acc);
            j = j + 1;
        }
        proof {
            assert(ints(r@) =~= spec_tmatvec(self@, ints(d@), cols as nat));
        }
        r
    }

    /// Overwrites one entry, leaving every other entry unchanged.
    pub fn set_entry(&mut self, i: usize, j: usize, v: i64)
        requires
            old(self).wf(),
            i < old(self).spec_rows(),
            j < old(self).spec_cols(),
        ensures
            final(self).wf(),
            final(self).spec_cols() == old(self).spec_cols(),
            final(self)@ == old(self)@.update(
                i as int,
                old(self)@[i as int].update(j as int, v as int),
            ),
    {
        proof {
            self.lemma_idx(i as int, j as int);
        }
        let ghost m0 = self@;
        let pos: usize = i * self.cols + j;
        self.data.set(pos, v);
        proof {
            let target = m0.update(i as int, m0[i as int].update(j as int, v as int));
            assert forall|q: int| 0 <= q < self.rows implies self@[q] =~= target[q] by {
                assert forall|t: int| 0 <= t < self.cols implies self@[q][t] == target[q][t] by {
                    self.lemma_idx(q, t);
                    if !(q == i as int && t == j as int) {
                        assert(q * self.cols + t != i as int * self.cols + j as int)
                            by (nonlinear_arith)
                            requires
                                0 <= q < self.rows as int,
                                0 <= t < self.cols as int,
                                0 <= i as int && (i as int) < self.rows as int,
                                0 <= j as int && (j as int) < self.cols as int,
                                !(q == i as int && t == j as int),
                        ;
                    }
                }
            }
            assert(self@ =~= target);
        }
    }

    /// Adds the outer product d (x) a into the matrix.
    pub fn add_outer(&mut self, d: &Vec<i64>, a: &Vec<i64>)
        requires
            old(self).wf(),
            d@.len() == old(self).spec_rows(),
            a@.len() == old(self).spec_cols(),
        ensures
            final(self).wf(),
            final(self).spec_cols() == old(self).spec_cols(),
            final(self)@ == spec_mat_add(old(self)@, spec_outer(ints(d@), ints(a@))),
    {
        let rows = self.rows();
        let cols = self.cols();
        let ghost m0 = self@;
        let mut i: usize = 0;
        while i < rows
            invariant
                i <= rows,
                self.wf(),
                self.spec_rows() == rows,
                self.spec_cols() == cols,
                d@.len() == rows,
                a@.len() == cols,
                m0.len() == rows,
                forall|q: int| 0 <= q < rows ==> m0[q].len() == cols,
                forall|q: int, t: int|
                    0 <= q < i && 0 <= t < cols ==> self@[q][t] == fadd(
                        m0[q][t],
                        fmul(d@[q] as int, a@[t] as int),
                    ),
                forall|q: int, t: int|
                    i <= q < rows && 0 <= t < cols ==> self@[q][t] == m0[q][t],
            decreases rows - i,
        {
            let mut j: usize = 0;
            while j < cols
                invariant
                    j <= cols,
                    i < rows,
                    self.wf(),
                    self.spec_rows() == rows,
                    self.spec_cols() == cols,
                    d@.len() == rows,
                    a@.len() == cols,
                    m0.len() == rows,
                    forall|q: int| 0 <= q < rows ==> m0[q].len() == cols,
                    forall|q: int, t: int|
                        0 <= q < i && 0 <= t < cols ==> self@[q][t] == fadd(
                            m0[q][t],
                            fmul(d@[q] as int, a@[t] as int),
                        ),
                    forall|t: int|
                        0 <= t < j ==> self@[i as int][t] == fadd(
                            m0[i as int][t],
                            fmul(d@[i as int] as int, a@[t] as int),
                        ),
                    forall|t: int| j <= t < cols ==> self@[i as int][t] == m0[i as int][t],
                    forall|q: int, t: int|
                        i < q < rows && 0 <= t < cols ==> self@[q][t] == m0[q][t],
                decreases cols - j,
            {
                let cur = self.get(i, j);
                let v = add_fix(cur, mul_fix(d[i], a[j]));
                self.set_entry(i, j, v);
                j = j + 1;
            }
            i = i + 1;
        }
        proof {
            assert(self@ =~= spec_mat_add(m0, spec_outer(ints(d@), ints(a@)))) by {
                assert forall|q: int| 0 <= q < rows implies self@[q] =~= spec_mat_add(
                    m0,
                    spec_outer(ints(d@), ints(a@)),
                )[q] by {}
            }
        }
    }

    /// Scales every entry by eta / n.
    pub fn scale_in_place(&mut self, eta: i64, n: usize)
        requires
            old(self).wf(),
            n > 0,
        ensures
            final(self).wf(),
            final(self).spec_cols() == old(self).spec_cols(),
            final(self)@ == spec_scale_mat(eta as int, n as int, old(self)@),
    {
        let rows = self.rows();
        let cols = self.cols();
        let ghost m0 = self@;
        let mut i: usize = 0;
        while i < rows
            invariant
                i <= rows,
                n > 0,
                self.wf(),
                self.spec_rows() == rows,
                self.spec_cols() == cols,
                m0.len() == rows,
                forall|q: int| 0 <= q < rows ==> m0[q].len() == cols,
                forall|q: int, t: int|
                    0 <= q < i && 0 <= t < cols ==> self@[q][t] == spec_scale_val(
                        eta as int,
                        n as int,
                        m0[q][t],
                    ),
                forall|q: int, t: int|
                    i <= q < rows && 0 <= t < cols ==> self@[q][t] == m0[q][t],
            decreases rows - i,
        {
            let mut j: usize = 0;
            while j < cols
                invariant
                    j <= cols,
                    i < rows,
                    n > 0,
                    self.wf(),
                    self.spec_rows() == rows,
                    self.spec_cols() == cols,
                    m0.len() == rows,
                    forall|q: int| 0 <= q < rows ==> m0[q].len() == cols,
                    forall|q: int, t: int|
                        0 <= q < i && 0 <= t < cols ==> self@[q][t] == spec_scale_val(
                            eta as int,
                            n as int,
                            m0[q][t],
                        ),
                    forall|t: int|
                        0 <= t < j ==> self@[i as int][t] == spec_scale_val(
                            eta as int,
                            n as int,
                            m0[i as int][t],
                        ),
                    forall|t: int| j <= t < cols ==> self@[i as int][t] == m0[i as int][t],
                    forall|q: int, t: int|
                        i < q < rows && 0 <= t < cols ==> self@[q][t] == m0[q][t],
                decreases cols - j,
            {
                let cur = self.get(i, j);
                let v = div_fix(mul_fix(eta, cur), n as u64);
                self.set_entry(i, j, v);
                j = j + 1;
            }
            i = i + 1;
        }
        proof {
            assert(self@ =~= spec_scale_mat(eta as int, n as int, m0)) by {
                assert forall|q: int| 0 <= q < rows implies self@[q] =~= spec_scale_mat(
                    eta as int,
                    n as int,
                    m0,
                )[q] by {}
            }
        }
    }

    /// Subtracts another matrix of the same shape, entry by entry.
    pub fn sub_assign(&mut self, dw: &Matrix)
        requires
            old(self).wf(),
            dw.wf(),
            dw.spec_rows() == old(self).spec_rows(),
            dw.spec_cols() == old(self).spec_cols(),
        ensures
            final(self).wf(),
            final(self).spec_cols() == old(self).spec_cols(),
            final(self)@ == spec_mat_sub(old(self)@, dw@),
    {
        let rows = self.rows();
        let cols = self.cols();
        let ghost m0 = self@;
        let mut i: usize = 0;
        while i < rows
            invariant
                i <= rows,
                self.wf(),
                self.spec_rows() == rows,
                self.spec_cols() == cols,
                dw.wf(),
                dw.spec_rows() == rows,
                dw.spec_cols() == cols,
                m0.len() == rows,
                forall|q: int| 0 <= q < rows ==> m0[q].len() == cols,
                forall|q: int, t: int|
                    0 <= q < i && 0 <= t < cols ==> self@[q][t] == fsub(m0[q][t], dw@[q][t]),
                forall|q: int, t: int|
                    i <= q < rows && 0 <= t < cols ==> self@[q][t] == m0[q][t],
            decreases rows - i,
        {
            let mut j: usize = 0;
            while j < cols
                invariant
                    j <= cols,
                    i < rows,
                    self.wf(),
                    self.spec_rows() == rows,
                    self.spec_cols() == cols,
                    dw.wf(),
                    dw.spec_rows() == rows,
                    dw.spec_cols() == cols,
                    m0.len() == rows,
                    forall|q: int| 0 <= q < rows ==> m0[q].len() == cols,
                    forall|q: int, t: int|
                        0 <= q < i && 0 <= t < cols ==> self@[q][t] == fsub(m0[q][t], dw@[q][t]),
                    forall|t: int|
                        0 <= t < j ==> self@[i as int][t] == fsub(
                            m0[i as int][t],
                            dw@[i as int][t],
                        ),
                    forall|t: int| j <= t < cols ==> self@[i as int][t] == m0[i as int][t],
                    forall|q: int, t: int|
                        i < q < rows && 0 <= t < cols ==> self@[q][t] == m0[q][t],
                decreases cols - j,
            {
                let cur = self.get(i, j);
                let v = sub_fix(cur, dw.get(i, j));
                self.set_entry(i, j, v);
                j = j + 1;
            }
            i = i + 1;
        }
        proof {
            assert(self@ =~= spec_mat_sub(m0, dw@)) by {
                assert forall|q: int| 0 <= q < rows implies self@[q] =~= spec_zip_sub(
                    m0[q],
                    dw@[q],
                ) by {}
            }
        }
    }
}

/// An all-zero vector of the given length.
pub fn vec_zeros(n: usize) -> (r: Vec<i64>)
    ensures
        ints(r@) == zero_vec(n as nat),
        r@.len() == n,
{
    let mut r: Vec<i64> = Vec::new();
    let mut t: usize = 0;
    while t < n
        invariant
            t <= n,
            r@.len() == t,
            forall|q: int| 0 <= q < t ==> r@[q] == 0i64,
        decreases n - t,
    {
        r.push(0);
        t = t + 1;
    }
    proof {
        assert(ints(r@) =~= zero_vec(n as nat));
    }
    r
}

/// Elementwise fixed-point sum of two vectors.
pub fn vec_add(a: &Vec<i64>, b: &Vec<i64>) -> (r: Vec<i64>)
    requires
        a@.len() == b@.len(),
    ensures
        ints(r@) == spec_zip_add(ints(a@), ints(b@)),
        r@.len() == a@.len(),
{
    let n = a.len();
    let mut r: Vec<i64> = Vec::new();
    let mut t: usize = 0;
    while t < n
        invariant
            t <= n,
            a@.len() == n,
            b@.len() == n,
            r@.len() == t,
            forall|q: int| 0 <= q < t ==> r@[q] as int == fadd(a@[q] as int, b@[q] as int),
        decreases n - t,
    {
        r.push(add_fix(a[t], b[t]));
        t = t + 1;
    }
    proof {
        assert(ints(r@) =~= spec_zip_add(ints(a@), ints(b@)));
    }
    r
}

/// Elementwise fixed-point difference of two vectors.
pub fn vec_sub(a: &Vec<i64>, b: &Vec<i64>) -> (r: Vec<i64>)
    requires
        a@.len() == b@.len(),
    ensures
        ints(r@) == spec_zip_sub(ints(a@), ints(b@)),
        r@.len() == a@.len(),
{
    let n = a.len();
    let mut r: Vec<i64> = Vec::new();
    let mut t: usize = 0;
    while t < n
        invariant
            t <= n,
            a@.len() == n,
            b@.len() == n,
            r@.len() == t,
            forall|q: int| 0 <= q < t ==> r@[q] as int == fsub(a@[q] as int, b@[q] as int),
        decreases n - t,
    {
        r.push(sub_fix(a[t], b[t]));
        t = t + 1;
    }
    proof {
        assert(ints(r@) =~= spec_zip_sub(ints(a@), ints(b@)));
    }
    r
}

/// Elementwise (Hadamard) fixed-point product of two vectors.
pub fn vec_mul(a: &Vec<i64>, b: &Vec<i64>) -> (r: Vec<i64>)
    requires
        a@.len() == b@.len(),
    ensures
        ints(r@) == spec_zip_mul(ints(a@), ints(b@)),
        r@.len() == a@.len(),
{
    let n = a.len();
    let mut r: Vec<i64> = Vec::new();
    let mut t: usize = 0;
    while t < n
        invariant
            t <= n,
            a@.len() == n,
            b@.len() == n,
            r@.len() == t,
            forall|q: int| 0 <= q < t ==> r@[q] as int == fmul(a@[q] as int, b@[q] as int),
        decreases n - t,
    {
        r.push(mul_fix(a[t], b[t]));
        t = t + 1;
    }
    proof {
        assert(ints(r@) =~= spec_zip_mul(ints(a@), ints(b@)));
    }
    r
}

/// Adds a vector into an accumulator, entry by entry.
pub fn vec_acc_add(acc: &mut Vec<i64>, d: &Vec<i64>)
    requires
        old(acc)@.len() == d@.len(),
    ensures
        ints(final(acc)@) == spec_zip_add(ints(old(acc)@), ints(d@)),
        final(acc)@.len() == old(acc)@.len(),
{
    let n = d.len();
    let ghost a0 = acc@;
    let mut t: usize = 0;
    while t < n
        invariant
            t <= n,
            acc@.len() == n,
            a0.len() == n,
            d@.len() == n,
            forall|q: int| 0 <= q < t ==> acc@[q] as int == fadd(a0[q] as int, d@[q] as int),
            forall|q: int| t <= q < n ==> acc@[q] == a0[q],
        decreases n - t,
    {
        let v = add_fix(acc[t], d[t]);
        acc.set(t, v);
        t = t + 1;
    }
    proof {
        assert(ints(acc@) =~= spec_zip_add(ints(a0), ints(d@)));
    }
}

/// Scales every entry of a vector by eta / n.
pub fn vec_scale_in_place(v: &mut Vec<i64>, eta: i64, n: usize)
    requires
        n > 0,
    ensures
        ints(final(v)@) == spec_scale_vec(eta as int, n as int, ints(old(v)@)),
        final(v)@.len() == old(v)@.len(),
{
    let len = v.len();
    let ghost v0 = v@;
    let mut t: usize = 0;
    while t < len
        invariant
            t <= len,
            n > 0,
            v@.len() == len,
            v0.len() == len,
            forall|q: int|
                0 <= q < t ==> v@[q] as int == spec_scale_val(eta as int, n as int, v0[q] as int),
            forall|q: int| t <= q < len ==> v@[q] == v0[q],
        decreases len - t,
    {
        let val = div_fix(mul_fix(eta, v[t]), n as u64);
        v.set(t, val);
        t = t + 1;
    }
    proof {
        assert(ints(v@) =~= spec_scale_vec(eta as int, n as int, ints(v0)));
    }
}

/// Fixed-point sum of squares of a vector's entries.
pub fn sumsq(v: &Vec<i64>) -> (r: i64)
    ensures
        r as int == spec_sumsq(ints(v@)),
        r >= 0,
{
    let n = v.len();
    let mut acc: i64 = 0;
    let mut t: usize = 0;
    while t < n
        invariant
            t <= n,
            v@.len() == n,
            acc as int == spec_sumsq_prefix(ints(v@), t as int),
        decreases n - t,
    {
        acc = add_fix(acc, mul_fix(v[t], v[t]));
        t = t + 1;
    }
    proof {
        lemma_sumsq_prefix_nonneg(ints(v@), n as int);
    }
    acc
}

} // verus!
