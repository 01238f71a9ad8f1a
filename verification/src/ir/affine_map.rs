//! Affine maps: piecewise affine functions `y = M x + c`, each piece defined
//! on a domain.

use vstd::prelude::*;
use crate::arith::fits_i64;
use crate::ir::affine_domain::{
    AffineDomain, ConstraintModel, DomainModel, contains_fits, detected_empty, domain_contains,
};
use crate::ir::vecs::{copy_i64s, zeros};

verus! {

/// Matrix of an affine transformation `y = M * x + c`; `M` is
/// `rows x cols`, stored row-major, and `c` has one entry per row.
#[derive(Debug)]
pub struct Matrix {
    pub rows: usize,
    pub cols: usize,
    /// Row-major entries.
    pub data: Vec<i64>,
    /// Translation vector.
    pub constant: Vec<i64>,
}

/// Mathematical model of a matrix.
pub struct MatrixModel {
    pub rows: nat,
    pub cols: nat,
    pub data: Seq<i64>,
    pub constant: Seq<i64>,
}

impl View for Matrix {
    type V = MatrixModel;

    open spec fn view(&self) -> MatrixModel {
        MatrixModel { rows: self.rows as nat, cols: self.cols as nat, data: self.data@, constant: self.constant@ }
    }
}

/// Entry `(i, j)` of a matrix.
pub open spec fn entry(m: MatrixModel, i: int, j: int) -> int {
    m.data[i * m.cols + j] as int
}

/// The entries and the translation cover every row and column.
pub open spec fn entries_ok(m: MatrixModel) -> bool {
    m.rows * m.cols <= m.data.len() && m.rows <= m.constant.len()
}

/// Exactly `rows * cols` entries and `rows` translation components.
pub open spec fn well_formed(m: MatrixModel) -> bool {
    m.data.len() == m.rows * m.cols && m.constant.len() == m.rows
}

/// `c_i + sum_{j < k} M_ij x_j`.
pub open spec fn row_sum(m: MatrixModel, i: int, x: Seq<i64>, k: int) -> int
    decreases k,
{
    if k <= 0 {
        m.constant[i] as int
    } else {
        row_sum(m, i, x, k - 1) + entry(m, i, k - 1) * x[k - 1]
    }
}

/// Row `i` of `M x + c`.
pub open spec fn apply_row(m: MatrixModel, i: int, x: Seq<i64>) -> int {
    row_sum(m, i, x, m.cols as int)
}

/// `M x + c` can be accumulated in `i64`, row by row, left to right.
pub open spec fn apply_fits(m: MatrixModel, x: Seq<i64>) -> bool {
    forall|i: int, k: int| 0 <= i < m.rows && 0 <= k <= m.cols ==> {
        &&& fits_i64(#[trigger] row_sum(m, i, x, k))
        &&& k < m.cols ==> fits_i64(entry(m, i, k) * x[k])
    }
}

/// `sum_{t < k} A_it B_tj`.
pub open spec fn prod_sum(a: MatrixModel, b: MatrixModel, i: int, j: int, k: int) -> int
    decreases k,
{
    if k <= 0 {
        0
    } else {
        prod_sum(a, b, i, j, k - 1) + entry(a, i, k - 1) * entry(b, k - 1, j)
    }
}

/// `a_i + sum_{t < k} A_it b_t`: the translation of the composition.
pub open spec fn const_sum(a: MatrixModel, b: MatrixModel, i: int, k: int) -> int
    decreases k,
{
    if k <= 0 {
        a.constant[i] as int
    } else {
        const_sum(a, b, i, k - 1) + entry(a, i, k - 1) * b.constant[k - 1]
    }
}

/// The composition `a ∘ b` (apply `b`, then `a`), entry by entry.
pub open spec fn compose_model(a: MatrixModel, b: MatrixModel) -> MatrixModel {
    MatrixModel {
        rows: a.rows,
        cols: b.cols,
        data: Seq::new(a.rows * b.cols, |k: int| prod_sum(a, b, k / (b.cols as int), k % (b.cols as int), a.cols as int) as i64),
        constant: Seq::new(a.rows, |i: int| const_sum(a, b, i, a.cols as int) as i64),
    }
}

/// The composition can be accumulated in `i64`.
pub open spec fn compose_fits(a: MatrixModel, b: MatrixModel) -> bool {
    &&& forall|i: int, j: int, k: int| 0 <= i < a.rows && 0 <= j < b.cols && 0 <= k <= a.cols ==> {
        &&& fits_i64(#[trigger] prod_sum(a, b, i, j, k))
        &&& k < a.cols ==> fits_i64(entry(a, i, k) * entry(b, k, j))
    }
    &&& forall|i: int, k: int| 0 <= i < a.rows && 0 <= k <= a.cols ==> {
        &&& fits_i64(#[trigger] const_sum(a, b, i, k))
        &&& k < a.cols ==> fits_i64(entry(a, i, k) * b.constant[k])
    }
}

/// `sum_{j < k} M_tj x_j`: the linear part of row `t` of `M x`.
pub open spec fn lin_row(m: MatrixModel, t: int, x: Seq<i64>, k: int) -> int
    decreases k,
{
    if k <= 0 {
        0
    } else {
        lin_row(m, t, x, k - 1) + entry(m, t, k - 1) * x[k - 1]
    }
}

/// `sum_{j < k} (sum_{t < n} A_it B_tj) x_j`.
pub open spec fn prod_lin(a: MatrixModel, b: MatrixModel, i: int, x: Seq<i64>, n: int, k: int) -> int
    decreases k,
{
    if k <= 0 {
        0
    } else {
        prod_lin(a, b, i, x, n, k - 1) + prod_sum(a, b, i, k - 1, n) * x[k - 1]
    }
}

/// `sum_{t < n} A_it (sum_{j < k} B_tj x_j)`.
pub open spec fn nested_lin(a: MatrixModel, b: MatrixModel, i: int, x: Seq<i64>, n: int, k: int) -> int
    decreases n,
{
    if n <= 0 {
        0
    } else {
        nested_lin(a, b, i, x, n - 1, k) + entry(a, i, n - 1) * lin_row(b, n - 1, x, k)
    }
}

proof fn lemma_row_sum_split(m: MatrixModel, t: int, x: Seq<i64>, k: int)
    ensures
        row_sum(m, t, x, k) == m.constant[t] as int + lin_row(m, t, x, k),
    decreases k,
{
    if k > 0 {
        lemma_row_sum_split(m, t, x, k - 1);
    }
}

proof fn lemma_prod_lin_step(a: MatrixModel, b: MatrixModel, i: int, x: Seq<i64>, n: int, k: int)
    requires
        n > 0,
    ensures
        prod_lin(a, b, i, x, n, k) == prod_lin(a, b, i, x, n - 1, k) + entry(a, i, n - 1) * lin_row(b, n - 1, x, k),
    decreases k,
{
    if k > 0 {
        lemma_prod_lin_step(a, b, i, x, n, k - 1);
        let e = entry(a, i, n - 1);
        let f = entry(b, n - 1, k - 1);
        let xv = x[k - 1] as int;
        let p = prod_sum(a, b, i, k - 1, n - 1);
        let l = lin_row(b, n - 1, x, k - 1);
        assert(prod_sum(a, b, i, k - 1, n) == p + e * f);
        assert((p + e * f) * xv == p * xv + e * (f * xv)) by (nonlinear_arith);
        assert(e * (l + f * xv) == e * l + e * (f * xv)) by (nonlinear_arith);
    }
}

proof fn lemma_prod_lin_nested(a: MatrixModel, b: MatrixModel, i: int, x: Seq<i64>, n: int, k: int)
    requires
        n >= 0,
    ensures
        prod_lin(a, b, i, x, n, k) == nested_lin(a, b, i, x, n, k),
    decreases n,
{
    if n == 0 {
        lemma_prod_lin_zero(a, b, i, x, k);
    } else {
        lemma_prod_lin_nested(a, b, i, x, n - 1, k);
        lemma_prod_lin_step(a, b, i, x, n, k);
    }
}

proof fn lemma_prod_lin_zero(a: MatrixModel, b: MatrixModel, i: int, x: Seq<i64>, k: int)
    ensures
        prod_lin(a, b, i, x, 0, k) == 0,
    decreases k,
{
    if k > 0 {
        lemma_prod_lin_zero(a, b, i, x, k - 1);
    }
}

/// `a_i + sum_{t < n} A_it y_t` where `y_t = b_t + sum_j B_tj x_j`.
proof fn lemma_outer_row(a: MatrixModel, b: MatrixModel, i: int, x: Seq<i64>, y: Seq<i64>, n: int)
    requires
        0 <= n <= y.len(),
        forall|t: int| 0 <= t < n ==> #[trigger] y[t] as int == b.constant[t] as int + lin_row(b, t, x, b.cols as int),
    ensures
        row_sum(a, i, y, n) == const_sum(a, b, i, n) + nested_lin(a, b, i, x, n, b.cols as int),
    decreases n,
{
    if n > 0 {
        lemma_outer_row(a, b, i, x, y, n - 1);
        let e = entry(a, i, n - 1);
        let c = b.constant[n - 1] as int;
        let l = lin_row(b, n - 1, x, b.cols as int);
        assert(y[n - 1] as int == c + l);
        assert(e * (c + l) == e * c + e * l) by (nonlinear_arith);
    }
}

/// The linear part of a row of the composition, entry by entry.
proof fn lemma_composed_lin(a: MatrixModel, b: MatrixModel, i: int, x: Seq<i64>, k: int)
    requires
        a.cols == b.rows,
        0 <= i < a.rows,
        0 <= k <= b.cols,
        compose_fits(a, b),
    ensures
        lin_row(compose_model(a, b), i, x, k) == prod_lin(a, b, i, x, a.cols as int, k),
    decreases k,
{
    if k > 0 {
        lemma_composed_lin(a, b, i, x, k - 1);
        let c = compose_model(a, b);
        let m = b.cols as int;
        lemma_index_in_range(i, k - 1, a.rows as int, m);
        lemma_index_split(i, k - 1, m);
        assert(fits_i64(prod_sum(a, b, i, k - 1, a.cols as int)));
        assert(entry(c, i, k - 1) == prod_sum(a, b, i, k - 1, a.cols as int));
    }
}

/// Applying a composition is applying its parts in turn: row `i` of
/// `(a ∘ b) x` is row `i` of `a (b x)`, where `b x` is computed exactly.
pub proof fn lemma_compose_apply(a: MatrixModel, b: MatrixModel, x: Seq<i64>, i: int)
    requires
        well_formed(a),
        well_formed(b),
        a.cols == b.rows,
        x.len() == b.cols,
        compose_fits(a, b),
        apply_fits(b, x),
        0 <= i < a.rows,
    ensures
        apply_row(compose_model(a, b), i, x) == apply_row(a, i, matrix_image(b, x)),
{
    let c = compose_model(a, b);
    let y = matrix_image(b, x);
    let n = a.cols as int;
    let m = b.cols as int;
    lemma_row_sum_split(c, i, x, m);
    lemma_composed_lin(a, b, i, x, m);
    lemma_prod_lin_nested(a, b, i, x, n, m);
    assert(fits_i64(const_sum(a, b, i, n)));
    assert(c.constant[i] as int == const_sum(a, b, i, n));
    assert forall|t: int| 0 <= t < n implies #[trigger] y[t] as int == b.constant[t] as int + lin_row(b, t, x, m) by {
        assert(fits_i64(row_sum(b, t, x, m)));
        lemma_row_sum_split(b, t, x, m);
    }
    lemma_outer_row(a, b, i, x, y, n);
}

/// The `n x n` identity.
pub open spec fn identity_model(n: nat) -> MatrixModel {
    MatrixModel {
        rows: n,
        cols: n,
        data: Seq::new(n * n, |k: int| if k / (n as int) == k % (n as int) { 1i64 } else { 0i64 }),
        constant: Seq::new(n, |_i: int| 0i64),
    }
}

/// The all-zero `rows x cols` matrix with zero translation.
pub open spec fn zero_model(rows: nat, cols: nat) -> MatrixModel {
    MatrixModel {
        rows,
        cols,
        data: Seq::new(rows * cols, |_k: int| 0i64),
        constant: Seq::new(rows, |_i: int| 0i64),
    }
}

/// Row-major position of `(i, j)` lies inside the `rows x cols` block.
pub proof fn lemma_index_in_range(i: int, j: int, rows: int, cols: int)
    requires
        0 <= i < rows,
        0 <= j < cols,
    ensures
        0 <= i * cols + j < rows * cols,
{
    assert(i * cols + j < rows * cols) by (nonlinear_arith)
        requires 0 <= i < rows, 0 <= j < cols;
    assert(0 <= i * cols) by (nonlinear_arith)
        requires 0 <= i, 0 <= cols;
}

/// Row and column are recovered from the row-major position.
pub proof fn lemma_index_split(i: int, j: int, cols: int)
    requires
        0 <= i,
        0 <= j < cols,
    ensures
        (i * cols + j) / cols == i,
        (i * cols + j) % cols == j,
{
    vstd::arithmetic::div_mod::lemma_fundamental_div_mod_converse(i * cols + j, cols, i, j);
}

/// Distinct cells have distinct row-major positions.
pub proof fn lemma_index_injective(i1: int, j1: int, i2: int, j2: int, cols: int)
    requires
        0 <= i1,
        0 <= i2,
        0 <= j1 < cols,
        0 <= j2 < cols,
        i1 * cols + j1 == i2 * cols + j2,
    ensures
        i1 == i2,
        j1 == j2,
{
    lemma_index_split(i1, j1, cols);
    lemma_index_split(i2, j2, cols);
}

impl Clone for Matrix {
    fn clone(&self) -> (r: Self)
        ensures
            r@ == self@,
    {
        Matrix { rows: self.rows, cols: self.cols, data: copy_i64s(&self.data), constant: copy_i64s(&self.constant) }
    }
}

impl Matrix {
    /// The all-zero matrix of the given shape.
    pub fn new(rows: usize, cols: usize) -> (r: Self)
        requires
            rows * cols <= usize::MAX,
        ensures
            r@ == zero_model(rows as nat, cols as nat),
    {
        let data = zeros(rows * cols);
        let constant = zeros(rows);
        Matrix { rows, cols, data, constant }
    }

    /// The `n x n` identity matrix.
    pub fn identity(n: usize) -> (r: Self)
        requires
            n * n <= usize::MAX,
        ensures
            r@ == identity_model(n as nat),
    {
        let mut m = Self::new(n, n);
        let mut i: usize = 0;
        while i < n
            invariant
                i <= n,
                n * n <= usize::MAX,
                m.rows == n,
                m.cols == n,
                m.data@.len() == n * n,
                m.constant@ == Seq::new(n as nat, |_i: int| 0i64),
                forall|k: int| 0 <= k < n * n ==> #[trigger] m.data@[k] == (if k / (n as int) == k % (n as int) && k / (n as int) < i { 1i64 } else { 0i64 }),
            decreases n - i,
        {
            proof {
                lemma_index_in_range(i as int, i as int, n as int, n as int);
                lemma_index_split(i as int, i as int, n as int);
            }
            m.data.set(i * n + i, 1);
            proof {
                assert forall|k: int| 0 <= k < n * n implies #[trigger] m.data@[k] == (if k / (n as int) == k % (n as int) && k / (n as int) < i + 1 { 1i64 } else { 0i64 }) by {
                    vstd::arithmetic::div_mod::lemma_fundamental_div_mod(k, n as int);
                    if k / (n as int) == k % (n as int) && k / (n as int) == i {
                        assert(k == i * n + i) by (nonlinear_arith)
                            requires k == (n as int) * (k / (n as int)) + k % (n as int), k / (n as int) == i, k % (n as int) == i;
                    }
                    if k == i * n + i {
                        assert(k / (n as int) == i);
                    }
                }
            }
            i = i + 1;
        }
        proof {
            assert forall|k: int| 0 <= k < n * n implies #[trigger] (k / (n as int)) < n by {
                vstd::arithmetic::div_mod::lemma_div_is_ordered(k, (n * n) as int, n as int);
                assert((n * n) as int / (n as int) == n) by {
                    lemma_index_split(n as int, 0, n as int);
                }
                if k / (n as int) >= n {
                    vstd::arithmetic::div_mod::lemma_fundamental_div_mod(k, n as int);
                    assert(false) by (nonlinear_arith)
                        requires k == (n as int) * (k / (n as int)) + k % (n as int), k / (n as int) >= n, k % (n as int) >= 0, k < n * n;
                }
            }
            assert(m@.data =~= identity_model(n as nat).data);
        }
        m
    }

    /// The all-zero matrix.
    pub fn zero(rows: usize, cols: usize) -> (r: Self)
        requires
            rows * cols <= usize::MAX,
        ensures
            r@ == zero_model(rows as nat, cols as nat),
    {
        Self::new(rows, cols)
    }

    /// Entry `(row, col)`.
    pub fn get(&self, row: usize, col: usize) -> (r: i64)
        requires
            row * self.cols + col < self.data.len(),
        ensures
            r == self.data@[row * self.cols + col],
    {
        self.data[row * self.cols + col]
    }

    /// Sets entry `(row, col)`.
    pub fn set(&mut self, row: usize, col: usize, val: i64)
        requires
            row * old(self).cols + col < old(self).data.len(),
        ensures
            final(self)@ == (MatrixModel { data: old(self)@.data.update(row * old(self).cols + col, val), ..old(self)@ }),
    {
        let k = row * self.cols + col;
        self.data.set(k, val);
    }

    /// Sets the translation of a row.
    pub fn set_const(&mut self, row: usize, val: i64)
        requires
            row < old(self).constant@.len(),
        ensures
            final(self)@ == (MatrixModel { constant: old(self)@.constant.update(row as int, val), ..old(self)@ }),
    {
        self.constant.set(row, val);
    }

    /// `M * x + c`.
    pub fn apply(&self, x: &[i64]) -> (y: Vec<i64>)
        requires
            x@.len() == self.cols,
            entries_ok(self@),
            apply_fits(self@, x@),
        ensures
            y@.len() == self.rows,
            forall|i: int| 0 <= i < self.rows ==> #[trigger] y@[i] == apply_row(self@, i, x@),
    {
        let mut y: Vec<i64> = Vec::new();
        let mut i: usize = 0;
        while i < self.rows
            invariant
                x@.len() == self.cols,
                entries_ok(self@),
                apply_fits(self@, x@),
                i <= self.rows,
                y@.len() == i,
                forall|t: int| 0 <= t < i ==> #[trigger] y@[t] == apply_row(self@, t, x@),
            decreases self.rows - i,
        {
            assert(fits_i64(row_sum(self@, i as int, x@, 0)));
            let mut sum: i64 = self.constant[i];
            let mut j: usize = 0;
            while j < self.cols
                invariant
                    x@.len() == self.cols,
                    entries_ok(self@),
                    apply_fits(self@, x@),
                    i < self.rows,
                    j <= self.cols,
                    sum == row_sum(self@, i as int, x@, j as int),
                decreases self.cols - j,
            {
                proof {
                    lemma_index_in_range(i as int, j as int, self.rows as int, self.cols as int);
                    assert(fits_i64(row_sum(self@, i as int, x@, j + 1)));
                    assert(fits_i64(row_sum(self@, i as int, x@, j as int)));
                }
                let p = self.get(i, j) * x[j];
                sum = sum + p;
                j = j + 1;
            }
            y.push(sum);
            i = i + 1;
        }
        y
    }

    /// Composition `self ∘ other`: first `other`, then `self`.
    pub fn compose(&self, other: &Matrix) -> (r: Matrix)
        requires
            self.cols == other.rows,
            entries_ok(self@),
            entries_ok(other@),
            self.rows * other.cols <= usize::MAX,
            compose_fits(self@, other@),
        ensures
            r@ == compose_model(self@, other@),
    {
        let mut result = Matrix::zero(self.rows, other.cols);
        proof {
            assert forall|a: int, b: int| 0 <= a < self.rows && 0 <= b < other.cols implies #[trigger] result.data@[a * other.cols + b] == 0 by {
                lemma_index_in_range(a, b, self.rows as int, other.cols as int);
            }
        }
        let mut i: usize = 0;
        while i < self.rows
            invariant
                self.cols == other.rows,
                entries_ok(self@),
                entries_ok(other@),
                compose_fits(self@, other@),
                self.rows * other.cols <= usize::MAX,
                i <= self.rows,
                result.rows == self.rows,
                result.cols == other.cols,
                result.data@.len() == self.rows * other.cols,
                result.constant@.len() == self.rows,
                forall|a: int, b: int| 0 <= a < i && 0 <= b < other.cols ==> #[trigger] result.data@[a * other.cols + b]
                    == prod_sum(self@, other@, a, b, self.cols as int),
                forall|a: int, b: int| i <= a < self.rows && 0 <= b < other.cols ==> #[trigger] result.data@[a * other.cols + b] == 0,
                forall|a: int| 0 <= a < i ==> #[trigger] result.constant@[a] == const_sum(self@, other@, a, self.cols as int),
            decreases self.rows - i,
        {
            let mut j: usize = 0;
            while j < other.cols
                invariant
                    self.cols == other.rows,
                    entries_ok(self@),
                    entries_ok(other@),
                    compose_fits(self@, other@),
                    self.rows * other.cols <= usize::MAX,
                    i < self.rows,
                    j <= other.cols,
                    result.rows == self.rows,
                    result.cols == other.cols,
                    result.data@.len() == self.rows * other.cols,
                    result.constant@.len() == self.rows,
                    forall|a: int, b: int| (0 <= a < i && 0 <= b < other.cols) || (a == i && 0 <= b < j) ==> #[trigger] result.data@[a * other.cols + b]
                        == prod_sum(self@, other@, a, b, self.cols as int),
                    forall|a: int, b: int| ((i < a < self.rows && 0 <= b < other.cols) || (a == i && j <= b < other.cols)) ==> #[trigger] result.data@[a * other.cols + b] == 0,
                    forall|a: int| 0 <= a < i ==> #[trigger] result.constant@[a] == const_sum(self@, other@, a, self.cols as int),
                decreases other.cols - j,
            {
                let mut sum: i64 = 0;
                let mut k: usize = 0;
                while k < self.cols
                    invariant
                        self.cols == other.rows,
                        entries_ok(self@),
                        entries_ok(other@),
                        compose_fits(self@, other@),
                        i < self.rows,
                        j < other.cols,
                        k <= self.cols,
                        sum == prod_sum(self@, other@, i as int, j as int, k as int),
                    decreases self.cols - k,
                {
                    proof {
                        lemma_index_in_range(i as int, k as int, self.rows as int, self.cols as int);
                        lemma_index_in_range(k as int, j as int, other.rows as int, other.cols as int);
                        assert(fits_i64(prod_sum(self@, other@, i as int, j as int, k + 1)));
                        assert(fits_i64(prod_sum(self@, other@, i as int, j as int, k as int)));
                    }
                    let p = self.get(i, k) * other.get(k, j);
                    sum = sum + p;
                    k = k + 1;
                }
                proof {
                    lemma_index_in_range(i as int, j as int, self.rows as int, other.cols as int);
                }
                let ghost before = result.data@;
                result.set(i, j, sum);
                proof {
                    assert forall|a: int, b: int| (0 <= a < self.rows && 0 <= b < other.cols) && !(a == i && b == j) implies #[trigger] result.data@[a * other.cols + b] == before[a * other.cols + b] by {
                        lemma_index_in_range(a, b, self.rows as int, other.cols as int);
                        if a * other.cols + b == i * other.cols + j {
                            lemma_index_injective(a, b, i as int, j as int, other.cols as int);
                        }
                    }
                }
                j = j + 1;
            }
            assert(fits_i64(const_sum(self@, other@, i as int, 0)));
            let mut c: i64 = self.constant[i];
            let mut k: usize = 0;
            while k < self.cols
                invariant
                    self.cols == other.rows,
                    entries_ok(self@),
                    entries_ok(other@),
                    compose_fits(self@, other@),
                    i < self.rows,
                    k <= self.cols,
                    c == const_sum(self@, other@, i as int, k as int),
                decreases self.cols - k,
            {
                proof {
                    lemma_index_in_range(i as int, k as int, self.rows as int, self.cols as int);
                    assert(fits_i64(const_sum(self@, other@, i as int, k + 1)));
                    assert(fits_i64(const_sum(self@, other@, i as int, k as int)));
                }
                let p = self.get(i, k) * other.constant[k];
                c = c + p;
                k = k + 1;
            }
            result.set_const(i, c);
            i = i + 1;
        }
        proof {
            assert forall|t: int| 0 <= t < self.rows * other.cols implies #[trigger] result.data@[t] == compose_model(self@, other@).data[t] by {
                let cols = other.cols as int;
                if cols == 0 {
                    assert(self.rows * other.cols == 0) by (nonlinear_arith)
                        requires other.cols == 0;
                }
                vstd::arithmetic::div_mod::lemma_fundamental_div_mod(t, cols);
                let a = t / cols;
                let b = t % cols;
                assert(t == a * cols + b) by (nonlinear_arith)
                    requires t == cols * (t / cols) + t % cols, a == t / cols, b == t % cols;
                assert(0 <= a) by {
                    vstd::arithmetic::div_mod::lemma_div_pos_is_pos(t, cols);
                }
                if a >= self.rows {
                    assert(false) by (nonlinear_arith)
                        requires t == a * cols + b, a >= self.rows, b >= 0, t < self.rows * cols, cols > 0;
                }
            }
            assert(result@.data =~= compose_model(self@, other@).data);
            assert(result@.constant =~= compose_model(self@, other@).constant);
        }
        result
    }
}


/// Single piece of a piecewise affine map: a domain and the affine
/// transformation applied on it.
#[derive(Debug)]
pub struct AffineMapPiece {
    /// Domain where this piece applies.
    pub domain: AffineDomain,
    /// Affine transformation matrix.
    pub matrix: Matrix,
}

/// Mathematical model of a piece.
pub struct PieceModel {
    pub domain: DomainModel,
    pub matrix: MatrixModel,
}

impl View for AffineMapPiece {
    type V = PieceModel;

    open spec fn view(&self) -> PieceModel {
        PieceModel { domain: self.domain@, matrix: self.matrix@ }
    }
}

impl Clone for AffineMapPiece {
    fn clone(&self) -> (r: Self)
        ensures
            r@ == self@,
    {
        AffineMapPiece { domain: self.domain.clone(), matrix: self.matrix.clone() }
    }
}

/// Applying a piece to a point never panics nor overflows.
pub open spec fn piece_apply_ok(p: PieceModel, x: Seq<i64>) -> bool {
    &&& contains_fits(p.domain, x)
    &&& domain_contains(p.domain, x) ==> (x.len() == p.matrix.cols && entries_ok(p.matrix) && apply_fits(p.matrix, x))
}

/// The image of `x` under `M x + c`.
pub open spec fn matrix_image(m: MatrixModel, x: Seq<i64>) -> Seq<i64> {
    Seq::new(m.rows, |i: int| apply_row(m, i, x) as i64)
}

/// A piece maps the points of its domain and nothing else.
pub open spec fn piece_apply(p: PieceModel, x: Seq<i64>) -> Option<Seq<i64>> {
    if domain_contains(p.domain, x) {
        Some(matrix_image(p.matrix, x))
    } else {
        None
    }
}

impl AffineMapPiece {
    pub fn new(domain: AffineDomain, matrix: Matrix) -> (r: Self)
        requires
            domain.dims == matrix.cols,
        ensures
            r@ == (PieceModel { domain: domain@, matrix: matrix@ }),
    {
        AffineMapPiece { domain, matrix }
    }

    /// The image of a point of the domain; `None` outside the domain.
    pub fn apply(&self, point: &[i64]) -> (r: Option<Vec<i64>>)
        requires
            piece_apply_ok(self@, point@),
        ensures
            r matches Some(y) ==> piece_apply(self@, point@) == Some(y@),
            r is None ==> piece_apply(self@, point@) is None,
    {
        if self.domain.contains(point) {
            let y = self.matrix.apply(point);
            assert(y@ =~= matrix_image(self@.matrix, point@));
            Some(y)
        } else {
            None
        }
    }
}

/// Piecewise affine map.
#[derive(Debug)]
pub struct AffineMap {
    pub pieces: Vec<AffineMapPiece>,
}

pub open spec fn pieces_view(ps: Seq<AffineMapPiece>) -> Seq<PieceModel> {
    ps.map_values(|p: AffineMapPiece| p@)
}

impl View for AffineMap {
    type V = Seq<PieceModel>;

    open spec fn view(&self) -> Seq<PieceModel> {
        pieces_view(self.pieces@)
    }
}

/// The result of the first piece (in order) whose domain holds the point.
pub open spec fn map_apply(ps: Seq<PieceModel>, x: Seq<i64>) -> Option<Seq<i64>>
    decreases ps.len(),
{
    if ps.len() == 0 {
        None
    } else {
        match piece_apply(ps[0], x) {
            Some(y) => Some(y),
            None => map_apply(ps.drop_first(), x),
        }
    }
}

/// Every piece that is tried (all earlier ones missed) applies without panic.
pub open spec fn map_apply_ok(ps: Seq<PieceModel>, x: Seq<i64>) -> bool {
    forall|i: int|
        0 <= i < ps.len() && (forall|j: int| 0 <= j < i ==> !domain_contains(ps[j].domain, x))
            ==> #[trigger] piece_apply_ok(ps[i], x)
}

/// Domains can be intersected and matrices composed for this pair.
pub open spec fn pair_composable(p1: PieceModel, p2: PieceModel) -> bool {
    &&& p1.domain.dims == p2.domain.dims
    &&& p1.domain.n_iter == p2.domain.n_iter
    &&& p1.domain.n_param == p2.domain.n_param
    &&& !detected_empty(p1.domain.constraints + p2.domain.constraints) ==> {
        &&& p1.matrix.cols == p2.matrix.rows
        &&& entries_ok(p1.matrix)
        &&& entries_ok(p2.matrix)
        &&& p1.matrix.rows * p2.matrix.cols <= usize::MAX
        &&& compose_fits(p1.matrix, p2.matrix)
        &&& p1.domain.dims == p2.matrix.cols
    }
}

/// The piece for `p1 ∘ p2` on the intersection of their domains.
pub open spec fn composed_piece(p1: PieceModel, p2: PieceModel) -> PieceModel {
    PieceModel {
        domain: DomainModel {
            dims: p1.domain.dims,
            n_iter: p1.domain.n_iter,
            n_param: p1.domain.n_param,
            constraints: p1.domain.constraints + p2.domain.constraints,
            name: None,
        },
        matrix: compose_model(p1.matrix, p2.matrix),
    }
}

/// The pieces composed from `p1` and the pieces of `qs`, in order, skipping
/// pairs whose domains are detected disjoint.
pub open spec fn compose_row(p1: PieceModel, qs: Seq<PieceModel>) -> Seq<PieceModel>
    decreases qs.len(),
{
    if qs.len() == 0 {
        Seq::empty()
    } else {
        let rest = compose_row(p1, qs.drop_last());
        if detected_empty(p1.domain.constraints + qs.last().domain.constraints) {
            rest
        } else {
            rest.push(composed_piece(p1, qs.last()))
        }
    }
}

/// All pieces of `ps ∘ qs`, by piece of `ps` then piece of `qs`.
pub open spec fn compose_all(ps: Seq<PieceModel>, qs: Seq<PieceModel>) -> Seq<PieceModel>
    decreases ps.len(),
{
    if ps.len() == 0 {
        Seq::empty()
    } else {
        compose_all(ps.drop_last(), qs) + compose_row(ps.last(), qs)
    }
}

/// A domain with the structure of `d` and the given constraints, unnamed.
pub open spec fn with_constraints(d: DomainModel, cs: Seq<ConstraintModel>) -> DomainModel {
    DomainModel { dims: d.dims, n_iter: d.n_iter, n_param: d.n_param, constraints: cs, name: None }
}

/// Constraints accumulated by `preimage`/`image`: for every piece whose
/// intersection with `d` is not detected empty, the piece's constraints
/// followed by those of `d`.
pub open spec fn merged_constraints(ps: Seq<PieceModel>, d: DomainModel) -> Seq<ConstraintModel>
    decreases ps.len(),
{
    if ps.len() == 0 {
        Seq::empty()
    } else {
        let rest = merged_constraints(ps.drop_last(), d);
        let inter = ps.last().domain.constraints + d.constraints;
        if detected_empty(inter) {
            rest
        } else {
            rest + inter
        }
    }
}

proof fn lemma_pieces_view_push(ps: Seq<AffineMapPiece>, p: AffineMapPiece)
    ensures
        pieces_view(ps.push(p)) == pieces_view(ps).push(p@),
{
    assert(pieces_view(ps.push(p)) =~= pieces_view(ps).push(p@));
}

proof fn lemma_pieces_view_prefix(ps: Seq<AffineMapPiece>, i: int)
    requires
        0 <= i < ps.len(),
    ensures
        pieces_view(ps.subrange(0, i + 1)) == pieces_view(ps.subrange(0, i)).push(ps[i]@),
        pieces_view(ps.subrange(0, i + 1)).drop_last() == pieces_view(ps.subrange(0, i)),
        pieces_view(ps)[i] == ps[i]@,
{
    assert(pieces_view(ps.subrange(0, i + 1)) =~= pieces_view(ps.subrange(0, i)).push(ps[i]@));
}

impl Clone for AffineMap {
    fn clone(&self) -> (r: Self)
        ensures
            r@ == self@,
    {
        let mut pieces: Vec<AffineMapPiece> = Vec::new();
        let mut i: usize = 0;
        while i < self.pieces.len()
            invariant
                i <= self.pieces@.len(),
                pieces_view(pieces@) == pieces_view(self.pieces@.subrange(0, i as int)),
            decreases self.pieces@.len() - i,
        {
            let p = self.pieces[i].clone();
            proof {
                lemma_pieces_view_push(pieces@, p);
                lemma_pieces_view_prefix(self.pieces@, i as int);
            }
            pieces.push(p);
            i = i + 1;
        }
        assert(self.pieces@.subrange(0, self.pieces@.len() as int) =~= self.pieces@);
        AffineMap { pieces }
    }
}

impl AffineMap {
    pub fn new(pieces: Vec<AffineMapPiece>) -> (r: Self)
        ensures
            r@ == pieces_view(pieces@),
    {
        AffineMap { pieces }
    }

    /// A single-piece (total) map.
    pub fn total(domain: AffineDomain, matrix: Matrix) -> (r: Self)
        requires
            domain.dims == matrix.cols,
        ensures
            r@ == seq![PieceModel { domain: domain@, matrix: matrix@ }],
    {
        let mut v: Vec<AffineMapPiece> = Vec::new();
        let p = AffineMapPiece::new(domain, matrix);
        v.push(p);
        assert(pieces_view(v@) =~= seq![p@]);
        Self::new(v)
    }

    /// Applies the first piece whose domain holds the point.
    pub fn apply(&self, point: &[i64]) -> (r: Option<Vec<i64>>)
        requires
            map_apply_ok(self@, point@),
        ensures
            r matches Some(y) ==> map_apply(self@, point@) == Some(y@),
            r is None ==> map_apply(self@, point@) is None,
    {
        let mut i: usize = 0;
        assert(self@.subrange(0, self@.len() as int) =~= self@);
        while i < self.pieces.len()
            invariant
                i <= self.pieces@.len(),
                map_apply_ok(self@, point@),
                forall|j: int| 0 <= j < i ==> !domain_contains(#[trigger] self@[j].domain, point@),
                map_apply(self@, point@) == map_apply(self@.subrange(i as int, self@.len() as int), point@),
            decreases self.pieces@.len() - i,
        {
            assert(self@[i as int] == self.pieces@[i as int]@);
            assert(piece_apply_ok(self@[i as int], point@));
            let ghost tail = self@.subrange(i as int, self@.len() as int);
            assert(tail[0] == self@[i as int]);
            assert(tail.drop_first() =~= self@.subrange(i + 1, self@.len() as int));
            match self.pieces[i].apply(point) {
                Some(y) => {
                    return Some(y);
                },
                None => {},
            }
            i = i + 1;
        }
        assert(self@.subrange(i as int, self@.len() as int).len() == 0);
        None
    }

    /// Composition `self ∘ other`: for each pair of pieces whose domains are
    /// not detected disjoint, the composed matrix on the intersected domain.
    pub fn compose(&self, other: &AffineMap) -> (r: AffineMap)
        requires
            forall|i: int, j: int| 0 <= i < self@.len() && 0 <= j < other@.len() ==> #[trigger] pair_composable(self@[i], other@[j]),
        ensures
            r@ == compose_all(self@, other@),
    {
        let mut pieces: Vec<AffineMapPiece> = Vec::new();
        let mut i: usize = 0;
        while i < self.pieces.len()
            invariant
                i <= self.pieces@.len(),
                forall|a: int, b: int| 0 <= a < self@.len() && 0 <= b < other@.len() ==> #[trigger] pair_composable(self@[a], other@[b]),
                pieces_view(pieces@) == compose_all(self@.subrange(0, i as int), other@),
            decreases self.pieces@.len() - i,
        {
            let p1 = &self.pieces[i];
            proof {
                lemma_pieces_view_prefix(self.pieces@, i as int);
                assert(self@.subrange(0, i + 1) == pieces_view(self.pieces@.subrange(0, i + 1)));
                assert(self@.subrange(0, i as int) == pieces_view(self.pieces@.subrange(0, i as int)));
            }
            let ghost before = pieces_view(pieces@);
            let mut j: usize = 0;
            while j < other.pieces.len()
                invariant
                    i < self.pieces@.len(),
                    p1 == self.pieces@[i as int],
                    j <= other.pieces@.len(),
                    forall|a: int, b: int| 0 <= a < self@.len() && 0 <= b < other@.len() ==> #[trigger] pair_composable(self@[a], other@[b]),
                    pieces_view(pieces@) == before + compose_row(p1@, other@.subrange(0, j as int)),
                decreases other.pieces@.len() - j,
            {
                let p2 = &other.pieces[j];
                proof {
                    lemma_pieces_view_prefix(other.pieces@, j as int);
                    assert(other@.subrange(0, j + 1) == pieces_view(other.pieces@.subrange(0, j + 1)));
                    assert(other@.subrange(0, j as int) == pieces_view(other.pieces@.subrange(0, j as int)));
                    assert(pair_composable(self@[i as int], other@[j as int]));
                    assert(self@[i as int] == p1@);
                    assert(other@[j as int] == p2@);
                    assert(other@.subrange(0, j + 1).last() == p2@);
                }
                let inter = p1.domain.intersection(&p2.domain);
                if !inter.is_empty() {
                    let composed = p1.matrix.compose(&p2.matrix);
                    let np = AffineMapPiece::new(inter, composed);
                    proof {
                        lemma_pieces_view_push(pieces@, np);
                        assert(np@ == composed_piece(p1@, p2@));
                    }
                    pieces.push(np);
                }
                j = j + 1;
            }
            assert(other@.subrange(0, other@.len() as int) =~= other@);
            proof {
                assert(self@.subrange(0, i + 1).drop_last() =~= self@.subrange(0, i as int));
                assert(self@.subrange(0, i + 1).last() == p1@);
            }
            i = i + 1;
        }
        assert(self@.subrange(0, self@.len() as int) =~= self@);
        AffineMap { pieces }
    }

    /// Preimage of a domain, approximated: starting from the universe over
    /// the target's dimensions, add the constraints of every non-empty
    /// intersection of a piece's domain with the target.
    pub fn preimage(&self, target_domain: &AffineDomain) -> (r: AffineDomain)
        requires
            target_domain.n_iter + target_domain.n_param <= usize::MAX,
            target_domain.dims == target_domain.n_iter + target_domain.n_param,
            forall|i: int| 0 <= i < self@.len() ==> (#[trigger] self@[i]).domain.dims == target_domain.dims
                && self@[i].domain.n_iter == target_domain.n_iter && self@[i].domain.n_param == target_domain.n_param,
        ensures
            r@ == with_constraints(target_domain@, merged_constraints(self@, target_domain@)),
    {
        let mut result = AffineDomain::universe(target_domain.n_iter, target_domain.n_param);
        let mut i: usize = 0;
        assert(merged_constraints(self@.subrange(0, 0), target_domain@) =~= Seq::<ConstraintModel>::empty());
        assert(result@.constraints =~= Seq::<ConstraintModel>::empty());
        while i < self.pieces.len()
            invariant
                i <= self.pieces@.len(),
                target_domain.dims == target_domain.n_iter + target_domain.n_param,
                forall|k: int| 0 <= k < self@.len() ==> (#[trigger] self@[k]).domain.dims == target_domain.dims
                    && self@[k].domain.n_iter == target_domain.n_iter && self@[k].domain.n_param == target_domain.n_param,
                result@ == with_constraints(target_domain@, merged_constraints(self@.subrange(0, i as int), target_domain@)),
            decreases self.pieces@.len() - i,
        {
            proof {
                lemma_pieces_view_prefix(self.pieces@, i as int);
                assert(self@.subrange(0, i + 1).drop_last() =~= self@.subrange(0, i as int));
                assert(self@.subrange(0, i + 1).last() == self@[i as int]);
                assert(self@[i as int] == self.pieces@[i as int]@);
            }
            let pre = self.pieces[i].domain.intersection(target_domain);
            if !pre.is_empty() {
                result = result.intersection(&pre);
            }
            i = i + 1;
        }
        assert(self@.subrange(0, self@.len() as int) =~= self@);
        result
    }

    /// Image of a domain, approximated: starting from the universe with one
    /// iterator per output row of the first piece, add the constraints of
    /// every non-empty intersection of a piece's domain with the source.
    pub fn image(&self, source_domain: &AffineDomain) -> (r: AffineDomain)
        requires
            self@.len() > 0,
            self@[0].matrix.rows + source_domain.n_param <= usize::MAX,
            forall|i: int| 0 <= i < self@.len() ==> (#[trigger] self@[i]).domain.dims == source_domain.dims
                && self@[i].domain.n_iter == source_domain.n_iter && self@[i].domain.n_param == source_domain.n_param,
            forall|i: int| 0 <= i < self@.len() && !detected_empty((#[trigger] self@[i]).domain.constraints + source_domain@.constraints)
                ==> self@[0].matrix.rows == source_domain.n_iter && source_domain.dims == source_domain.n_iter + source_domain.n_param,
        ensures
            r@ == (DomainModel {
                dims: (self@[0].matrix.rows + source_domain@.n_param) as nat,
                n_iter: self@[0].matrix.rows,
                n_param: source_domain@.n_param,
                constraints: merged_constraints(self@, source_domain@),
                name: None,
            }),
    {
        assert(self@[0] == self.pieces@[0]@);
        let rows0 = self.pieces[0].matrix.rows;
        let mut result = AffineDomain::universe(rows0, source_domain.n_param);
        let mut i: usize = 0;
        assert(merged_constraints(self@.subrange(0, 0), source_domain@) =~= Seq::<ConstraintModel>::empty());
        assert(result@.constraints =~= Seq::<ConstraintModel>::empty());
        while i < self.pieces.len()
            invariant
                i <= self.pieces@.len(),
                self@.len() > 0,
                rows0 == self@[0].matrix.rows,
                forall|k: int| 0 <= k < self@.len() ==> (#[trigger] self@[k]).domain.dims == source_domain.dims
                    && self@[k].domain.n_iter == source_domain.n_iter && self@[k].domain.n_param == source_domain.n_param,
                forall|k: int| 0 <= k < self@.len() && !detected_empty((#[trigger] self@[k]).domain.constraints + source_domain@.constraints)
                    ==> self@[0].matrix.rows == source_domain.n_iter && source_domain.dims == source_domain.n_iter + source_domain.n_param,
                result@ == (DomainModel {
                    dims: (rows0 + source_domain@.n_param) as nat,
                    n_iter: rows0 as nat,
                    n_param: source_domain@.n_param,
                    constraints: merged_constraints(self@.subrange(0, i as int), source_domain@),
                    name: None,
                }),
            decreases self.pieces@.len() - i,
        {
            proof {
                lemma_pieces_view_prefix(self.pieces@, i as int);
                assert(self@.subrange(0, i + 1).drop_last() =~= self@.subrange(0, i as int));
                assert(self@.subrange(0, i + 1).last() == self@[i as int]);
                assert(self@[i as int] == self.pieces@[i as int]@);
            }
            let inter = self.pieces[i].domain.intersection(source_domain);
            if !inter.is_empty() {
                assert(!detected_empty(self@[i as int].domain.constraints + source_domain@.constraints));
                result = result.intersection(&inter);
            }
            i = i + 1;
        }
        assert(self@.subrange(0, self@.len() as int) =~= self@);
        result
    }
}

} // verus!
