//! Integer Gaussian elimination on row-major tables: the invertibility test
//! and the Gauss-Jordan inverse of affine matrices.
//!
//! The arithmetic is Rust's `i64` arithmetic with truncating division, so the
//! result is stated over the elimination itself: each step is a function from
//! table to table, and a table is a sequence of mathematical integers read
//! through `cell`.

use vstd::prelude::*;
use crate::arith::{fits_i64, i64_div, trunc_div};
use crate::ir::affine_map::{
    AffineMap, AffineMapPiece, Matrix, MatrixModel, PieceModel, entry, lemma_index_in_range,
    lemma_index_injective, lemma_index_split, well_formed,
};
use crate::ir::vecs::copy_i64s;

verus! {

/// The entries of an `i64` vector as integers.
pub open spec fn ints(s: Seq<i64>) -> Seq<int> {
    Seq::new(s.len(), |t: int| s[t] as int)
}

/// Row `r`, column `c` of a row-major table of width `w`.
pub open spec fn cell(s: Seq<int>, w: int, r: int, c: int) -> int {
    s[r * w + c]
}

/// The `n x w` table whose cell `(r, c)` is `f(r, c)`.
pub open spec fn table(n: int, w: int, f: spec_fn(int, int) -> int) -> Seq<int> {
    Seq::new((n * w) as nat, |t: int| f(t / w, t % w))
}

/// First row `p` at or after `from` (and before `n`) whose entry in column
/// `col` is non-zero; `n` when there is none.
pub open spec fn pivot_row(s: Seq<int>, w: int, n: int, col: int, from: int) -> int
    decreases n - from,
{
    if from >= n {
        n
    } else if cell(s, w, from, col) != 0 {
        from
    } else {
        pivot_row(s, w, n, col, from + 1)
    }
}

/// Rows `x` and `y` exchanged.
pub open spec fn swap_rows(s: Seq<int>, n: int, w: int, x: int, y: int) -> Seq<int> {
    table(n, w, |r: int, c: int|
        if r == x {
            cell(s, w, y, c)
        } else if r == y {
            cell(s, w, x, c)
        } else {
            cell(s, w, r, c)
        })
}

/// The multiple of row `i` subtracted from row `r` below it.
pub open spec fn below_factor(s: Seq<int>, n: int, i: int, r: int) -> int {
    trunc_div(cell(s, n, r, i), cell(s, n, i, i))
}

/// Forward elimination below the pivot `(i, i)` of a square table: each
/// later row loses `factor` times row `i`, from column `i` on.
pub open spec fn eliminate_below(s: Seq<int>, n: int, i: int) -> Seq<int> {
    table(n, n, |r: int, c: int|
        if r > i && c >= i {
            cell(s, n, r, c) - below_factor(s, n, i, r) * cell(s, n, i, c)
        } else {
            cell(s, n, r, c)
        })
}

/// Forward elimination below `(i, i)` stays within `i64`.
pub open spec fn below_fits(s: Seq<int>, n: int, i: int) -> bool {
    &&& forall|r: int| i < r < n ==> !(#[trigger] cell(s, n, r, i) == i64::MIN && cell(s, n, i, i) == -1)
    &&& forall|r: int, c: int| #![trigger cell(s, n, r, c)] i < r < n && i <= c < n ==> {
        &&& fits_i64(below_factor(s, n, i, r) * cell(s, n, i, c))
        &&& fits_i64(cell(s, n, r, c) - below_factor(s, n, i, r) * cell(s, n, i, c))
    }
}

/// Row `i` divided (truncating) by its entry in column `i`.
pub open spec fn normalize_row(s: Seq<int>, n: int, w: int, i: int) -> Seq<int> {
    table(n, w, |r: int, c: int|
        if r == i {
            trunc_div(cell(s, w, i, c), cell(s, w, i, i))
        } else {
            cell(s, w, r, c)
        })
}

/// Normalizing row `i` stays within `i64`.
pub open spec fn normalize_fits(s: Seq<int>, w: int, i: int) -> bool {
    forall|c: int| 0 <= c < w ==> !(#[trigger] cell(s, w, i, c) == i64::MIN && cell(s, w, i, i) == -1)
}

/// Every other row loses its entry in column `i` times row `i`.
pub open spec fn eliminate_others(s: Seq<int>, n: int, w: int, i: int) -> Seq<int> {
    table(n, w, |r: int, c: int|
        if r != i {
            cell(s, w, r, c) - cell(s, w, r, i) * cell(s, w, i, c)
        } else {
            cell(s, w, r, c)
        })
}

/// Eliminating column `i` from the other rows stays within `i64`.
pub open spec fn others_fits(s: Seq<int>, n: int, w: int, i: int) -> bool {
    forall|r: int, c: int| #![trigger cell(s, w, r, c)] 0 <= r < n && r != i && 0 <= c < w ==> {
        &&& fits_i64(cell(s, w, r, i) * cell(s, w, i, c))
        &&& fits_i64(cell(s, w, r, c) - cell(s, w, r, i) * cell(s, w, i, c))
    }
}

/// The table before step `i` of forward elimination, with the pivot row
/// moved into place.
pub open spec fn forward_swapped(s: Seq<int>, n: int, i: int) -> Seq<int> {
    swap_rows(forward_state(s, n, i), n, n, i, pivot_row(forward_state(s, n, i), n, n, i, i))
}

/// The table after `k` steps of forward elimination.
pub open spec fn forward_state(s: Seq<int>, n: int, k: int) -> Seq<int>
    decreases k,
{
    if k <= 0 {
        s
    } else {
        let prev = forward_state(s, n, k - 1);
        eliminate_below(swap_rows(prev, n, n, k - 1, pivot_row(prev, n, n, k - 1, k - 1)), n, k - 1)
    }
}

/// The first `k` steps of forward elimination each found a pivot.
pub open spec fn forward_pivots(s: Seq<int>, n: int, k: int) -> bool {
    forall|i: int| 0 <= i < k ==> pivot_row(#[trigger] forward_state(s, n, i), n, n, i, i) < n
}

/// Every step of forward elimination that is reached stays within `i64`.
pub open spec fn forward_fits(s: Seq<int>, n: int) -> bool {
    forall|i: int| 0 <= i < n && forward_pivots(s, n, i) && pivot_row(forward_state(s, n, i), n, n, i, i) < n
        ==> below_fits(#[trigger] forward_swapped(s, n, i), n, i)
}

/// A matrix is invertible when it is square and forward elimination finds a
/// non-zero pivot in every column.
pub open spec fn invertible_model(m: MatrixModel) -> bool {
    m.rows == m.cols && forward_pivots(ints(m.data), m.rows as int, m.rows as int)
}

/// The invertibility test runs within `i64`.
pub open spec fn invertible_fits(m: MatrixModel) -> bool {
    m.rows == m.cols ==> forward_fits(ints(m.data), m.rows as int)
}

/// Width of the augmented table `[A | I | c]`.
pub open spec fn aug_width(n: int) -> int {
    2 * n + 1
}

/// The augmented table `[A | I | c]` of a square matrix.
pub open spec fn augment(m: MatrixModel) -> Seq<int> {
    let n = m.rows as int;
    table(n, aug_width(n), |r: int, c: int|
        if c < n {
            entry(m, r, c)
        } else if c < 2 * n {
            if c - n == r { 1 } else { 0 }
        } else {
            m.constant[r] as int
        })
}

/// The table before step `i` of Gauss-Jordan, with the pivot row in place.
pub open spec fn gj_swapped(s: Seq<int>, n: int, i: int) -> Seq<int> {
    swap_rows(gj_state(s, n, i), n, aug_width(n), i, pivot_row(gj_state(s, n, i), aug_width(n), n, i, i))
}

/// The table before step `i`, pivot row in place and divided by the pivot.
pub open spec fn gj_normalized(s: Seq<int>, n: int, i: int) -> Seq<int> {
    normalize_row(gj_swapped(s, n, i), n, aug_width(n), i)
}

/// The table after `k` steps of Gauss-Jordan elimination.
pub open spec fn gj_state(s: Seq<int>, n: int, k: int) -> Seq<int>
    decreases k,
{
    if k <= 0 {
        s
    } else {
        let prev = gj_state(s, n, k - 1);
        let w = aug_width(n);
        eliminate_others(normalize_row(swap_rows(prev, n, w, k - 1, pivot_row(prev, w, n, k - 1, k - 1)), n, w, k - 1), n, w, k - 1)
    }
}

/// The first `k` steps of Gauss-Jordan each found a pivot.
pub open spec fn gj_pivots(s: Seq<int>, n: int, k: int) -> bool {
    forall|i: int| 0 <= i < k ==> pivot_row(#[trigger] gj_state(s, n, i), aug_width(n), n, i, i) < n
}

/// Every step of Gauss-Jordan that is reached stays within `i64`.
pub open spec fn gj_fits(s: Seq<int>, n: int) -> bool {
    forall|i: int| 0 <= i < n && gj_pivots(s, n, i) && pivot_row(gj_state(s, n, i), aug_width(n), n, i, i) < n ==> {
        &&& normalize_fits(#[trigger] gj_swapped(s, n, i), aug_width(n), i)
        &&& others_fits(gj_normalized(s, n, i), n, aug_width(n), i)
    }
}

/// The inverse exists: the matrix passes the invertibility test and
/// Gauss-Jordan on `[A | I | c]` finds every pivot.
pub open spec fn inverse_exists(m: MatrixModel) -> bool {
    invertible_model(m) && gj_pivots(augment(m), m.rows as int, m.rows as int)
}

/// The final Gauss-Jordan table.
pub open spec fn gj_final(m: MatrixModel) -> Seq<int> {
    gj_state(augment(m), m.rows as int, m.rows as int)
}

/// Entries of the inverse: the middle block of the final table.
pub open spec fn inverse_data(m: MatrixModel) -> Seq<int> {
    let n = m.rows as int;
    table(n, n, |r: int, c: int| cell(gj_final(m), aug_width(n), r, n + c))
}

/// Translation of the inverse: the final table's last column holds
/// `A⁻¹ c`, and since `y = A x + c` gives `x = A⁻¹ y - A⁻¹ c`, the
/// translation is its negation.
pub open spec fn inverse_constant(m: MatrixModel) -> Seq<int> {
    let n = m.rows as int;
    Seq::new(n as nat, |r: int| -cell(gj_final(m), aug_width(n), r, 2 * n))
}

/// The inverse computation runs within `i64` and its table fits in memory.
pub open spec fn inverse_fits(m: MatrixModel) -> bool {
    &&& invertible_fits(m)
    &&& invertible_model(m) ==> {
        &&& m.rows * aug_width(m.rows as int) <= usize::MAX
        &&& gj_fits(augment(m), m.rows as int)
        &&& gj_pivots(augment(m), m.rows as int, m.rows as int) ==> forall|r: int|
            0 <= r < m.rows ==> #[trigger] cell(gj_final(m), aug_width(m.rows as int), r, 2 * (m.rows as int)) > i64::MIN
    }
}

// ---------------------------------------------------------------------------
// Lemmas on tables.

proof fn lemma_table_shape(n: int, w: int, r: int, c: int)
    requires
        0 <= r < n,
        0 <= c < w,
    ensures
        0 <= r * w + c < n * w,
        (r * w + c) / w == r,
        (r * w + c) % w == c,
        0 <= n * w,
{
    lemma_index_in_range(r, c, n, w);
    lemma_index_split(r, c, w);
}

proof fn lemma_swap_cell(s: Seq<int>, n: int, w: int, x: int, y: int, r: int, c: int)
    requires
        0 <= r < n,
        0 <= c < w,
    ensures
        swap_rows(s, n, w, x, y).len() == n * w,
        cell(swap_rows(s, n, w, x, y), w, r, c) == if r == x {
            cell(s, w, y, c)
        } else if r == y {
            cell(s, w, x, c)
        } else {
            cell(s, w, r, c)
        },
{
    lemma_table_shape(n, w, r, c);
}

proof fn lemma_below_cell(s: Seq<int>, n: int, i: int, r: int, c: int)
    requires
        0 <= r < n,
        0 <= c < n,
    ensures
        eliminate_below(s, n, i).len() == n * n,
        cell(eliminate_below(s, n, i), n, r, c) == if r > i && c >= i {
            cell(s, n, r, c) - below_factor(s, n, i, r) * cell(s, n, i, c)
        } else {
            cell(s, n, r, c)
        },
{
    lemma_table_shape(n, n, r, c);
}

proof fn lemma_normalize_cell(s: Seq<int>, n: int, w: int, i: int, r: int, c: int)
    requires
        0 <= r < n,
        0 <= c < w,
    ensures
        normalize_row(s, n, w, i).len() == n * w,
        cell(normalize_row(s, n, w, i), w, r, c) == if r == i {
            trunc_div(cell(s, w, i, c), cell(s, w, i, i))
        } else {
            cell(s, w, r, c)
        },
{
    lemma_table_shape(n, w, r, c);
}

proof fn lemma_others_cell(s: Seq<int>, n: int, w: int, i: int, r: int, c: int)
    requires
        0 <= r < n,
        0 <= c < w,
    ensures
        eliminate_others(s, n, w, i).len() == n * w,
        cell(eliminate_others(s, n, w, i), w, r, c) == if r != i {
            cell(s, w, r, c) - cell(s, w, r, i) * cell(s, w, i, c)
        } else {
            cell(s, w, r, c)
        },
{
    lemma_table_shape(n, w, r, c);
}

/// Two tables of the same shape that agree on every cell are equal.
proof fn lemma_cells_ext(a: Seq<int>, b: Seq<int>, n: int, w: int)
    requires
        0 <= n,
        0 <= w,
        a.len() == n * w,
        b.len() == n * w,
        forall|r: int, c: int| 0 <= r < n && 0 <= c < w ==> #[trigger] cell(a, w, r, c) == cell(b, w, r, c),
    ensures
        a == b,
{
    assert forall|t: int| 0 <= t < a.len() implies a[t] == b[t] by {
        assert(w > 0) by (nonlinear_arith)
            requires 0 <= t < n * w, 0 <= n, 0 <= w;
        vstd::arithmetic::div_mod::lemma_fundamental_div_mod(t, w);
        let r = t / w;
        let c = t % w;
        assert(0 <= r) by {
            vstd::arithmetic::div_mod::lemma_div_pos_is_pos(t, w);
        }
        assert(r < n) by (nonlinear_arith)
            requires t == w * r + c, 0 <= c, t < n * w, w > 0;
        assert(t == r * w + c) by (nonlinear_arith)
            requires t == w * r + c;
        assert(cell(a, w, r, c) == cell(b, w, r, c));
    }
    assert(a =~= b);
}

proof fn lemma_ints_update(a: Seq<i64>, t: int, v: i64)
    requires
        0 <= t < a.len(),
    ensures
        ints(a.update(t, v)) == ints(a).update(t, v as int),
{
    assert(ints(a.update(t, v)) =~= ints(a).update(t, v as int));
}

proof fn lemma_cell_update(s: Seq<int>, n: int, w: int, x: int, j: int, v: int, r: int, c: int)
    requires
        s.len() == n * w,
        0 <= x < n,
        0 <= j < w,
        0 <= r < n,
        0 <= c < w,
    ensures
        cell(s.update(x * w + j, v), w, r, c) == if r == x && c == j { v } else { cell(s, w, r, c) },
{
    lemma_index_in_range(x, j, n, w);
    lemma_index_in_range(r, c, n, w);
    if r * w + c == x * w + j {
        lemma_index_injective(r, c, x, j, w);
    }
}

/// A cell of the integer view is the vector's entry.
proof fn lemma_ints_cell(a: Seq<i64>, n: int, w: int, r: int, c: int)
    requires
        a.len() == n * w,
        0 <= r < n,
        0 <= c < w,
    ensures
        cell(ints(a), w, r, c) == a[r * w + c] as int,
        0 <= r * w + c < n * w,
{
    lemma_index_in_range(r, c, n, w);
}

/// The pivot search ends at a row with a non-zero entry, or at `n`.
proof fn lemma_pivot_row(s: Seq<int>, w: int, n: int, col: int, from: int)
    requires
        0 <= from <= n,
    ensures
        from <= pivot_row(s, w, n, col, from) <= n,
        pivot_row(s, w, n, col, from) < n ==> cell(s, w, pivot_row(s, w, n, col, from), col) != 0,
    decreases n - from,
{
    if from < n && cell(s, w, from, col) == 0 {
        lemma_pivot_row(s, w, n, col, from + 1);
    }
}

/// Exchanging a row with itself changes nothing.
proof fn lemma_swap_same(s: Seq<int>, n: int, w: int, x: int)
    requires
        0 <= n,
        0 <= w,
        s.len() == n * w,
    ensures
        swap_rows(s, n, w, x, x) == s,
{
    let t = swap_rows(s, n, w, x, x);
    assert(0 <= n * w) by (nonlinear_arith)
        requires 0 <= n, 0 <= w;
    assert forall|r: int, c: int| 0 <= r < n && 0 <= c < w implies #[trigger] cell(t, w, r, c) == cell(s, w, r, c) by {
        lemma_swap_cell(s, n, w, x, x, r, c);
    }
    lemma_cells_ext(t, s, n, w);
}

// ---------------------------------------------------------------------------
// Steps on vectors.

/// First row at or after `from` with a non-zero entry in column `col`.
fn find_pivot(a: &Vec<i64>, n: usize, w: usize, col: usize, from: usize) -> (p: usize)
    requires
        a@.len() == n * w,
        n * w <= usize::MAX,
        col < w,
        from <= n,
    ensures
        p == pivot_row(ints(a@), w as int, n as int, col as int, from as int),
{
    let mut p = from;
    while p < n
        invariant
            a@.len() == n * w,
            n * w <= usize::MAX,
            col < w,
            from <= p <= n,
            pivot_row(ints(a@), w as int, n as int, col as int, p as int)
                == pivot_row(ints(a@), w as int, n as int, col as int, from as int),
        decreases n - p,
    {
        proof {
            lemma_ints_cell(a@, n as int, w as int, p as int, col as int);
        }
        if a[p * w + col] != 0 {
            return p;
        }
        p = p + 1;
    }
    p
}

/// Exchanges rows `x` and `y` (distinct) of an `n x w` table.
fn swap_rows_vec(a: &mut Vec<i64>, n: usize, w: usize, x: usize, y: usize)
    requires
        old(a)@.len() == n * w,
        n * w <= usize::MAX,
        x < n,
        y < n,
        x != y,
    ensures
        final(a)@.len() == n * w,
        ints(final(a)@) == swap_rows(ints(old(a)@), n as int, w as int, x as int, y as int),
{
    let ghost s = ints(a@);
    let mut j: usize = 0;
    while j < w
        invariant
            a@.len() == n * w,
            n * w <= usize::MAX,
            s.len() == n * w,
            x < n,
            y < n,
            x != y,
            j <= w,
            forall|r: int, c: int| 0 <= r < n && 0 <= c < w ==> #[trigger] cell(ints(a@), w as int, r, c) == (
                if r == x && c < j {
                    cell(s, w as int, y as int, c)
                } else if r == y && c < j {
                    cell(s, w as int, x as int, c)
                } else {
                    cell(s, w as int, r, c)
                }),
        decreases w - j,
    {
        proof {
            lemma_ints_cell(a@, n as int, w as int, x as int, j as int);
            lemma_ints_cell(a@, n as int, w as int, y as int, j as int);
        }
        let ix = x * w + j;
        let iy = y * w + j;
        let vx = a[ix];
        let vy = a[iy];
        let ghost a0 = a@;
        a.set(ix, vy);
        let ghost a1 = a@;
        a.set(iy, vx);
        proof {
            lemma_ints_update(a0, ix as int, vy);
            lemma_ints_update(a1, iy as int, vx);
            assert(cell(ints(a0), w as int, x as int, j as int) == vx);
            assert(cell(ints(a0), w as int, y as int, j as int) == vy);
            assert forall|r: int, c: int| 0 <= r < n && 0 <= c < w implies #[trigger] cell(ints(a@), w as int, r, c) == (
                if r == x && c < j + 1 {
                    cell(s, w as int, y as int, c)
                } else if r == y && c < j + 1 {
                    cell(s, w as int, x as int, c)
                } else {
                    cell(s, w as int, r, c)
                }) by {
                lemma_cell_update(ints(a0), n as int, w as int, x as int, j as int, vy as int, r, c);
                lemma_cell_update(ints(a1), n as int, w as int, y as int, j as int, vx as int, r, c);
                assert(cell(ints(a0), w as int, r, c) == (
                    if r == x && c < j {
                        cell(s, w as int, y as int, c)
                    } else if r == y && c < j {
                        cell(s, w as int, x as int, c)
                    } else {
                        cell(s, w as int, r, c)
                    }));
            }
        }
        j = j + 1;
    }
    proof {
        let t = swap_rows(s, n as int, w as int, x as int, y as int);
        assert forall|r: int, c: int| 0 <= r < n && 0 <= c < w implies #[trigger] cell(ints(a@), w as int, r, c) == cell(t, w as int, r, c) by {
            lemma_swap_cell(s, n as int, w as int, x as int, y as int, r, c);
        }
        assert(0 <= n * w) by (nonlinear_arith)
            requires 0 <= n, 0 <= w;
        lemma_cells_ext(ints(a@), t, n as int, w as int);
    }
}

/// Forward elimination below the pivot `(i, i)` of a square table.
fn eliminate_below_vec(a: &mut Vec<i64>, n: usize, i: usize)
    requires
        old(a)@.len() == n * n,
        n * n <= usize::MAX,
        i < n,
        cell(ints(old(a)@), n as int, i as int, i as int) != 0,
        below_fits(ints(old(a)@), n as int, i as int),
    ensures
        final(a)@.len() == n * n,
        ints(final(a)@) == eliminate_below(ints(old(a)@), n as int, i as int),
{
    let ghost s = ints(a@);
    proof {
        lemma_ints_cell(a@, n as int, n as int, i as int, i as int);
    }
    let piv = a[i * n + i];
    let mut j: usize = i + 1;
    while j < n
        invariant
            a@.len() == n * n,
            n * n <= usize::MAX,
            s.len() == n * n,
            i < n,
            i < j <= n,
            piv == cell(s, n as int, i as int, i as int),
            piv != 0,
            below_fits(s, n as int, i as int),
            forall|r: int, c: int| 0 <= r < n && 0 <= c < n ==> #[trigger] cell(ints(a@), n as int, r, c) == (
                if i < r < j && c >= i {
                    cell(s, n as int, r, c) - below_factor(s, n as int, i as int, r) * cell(s, n as int, i as int, c)
                } else {
                    cell(s, n as int, r, c)
                }),
        decreases n - j,
    {
        proof {
            lemma_ints_cell(a@, n as int, n as int, j as int, i as int);
            assert(cell(ints(a@), n as int, j as int, i as int) == cell(s, n as int, j as int, i as int));
            assert(!(cell(s, n as int, j as int, i as int) == i64::MIN && cell(s, n as int, i as int, i as int) == -1));
        }
        let factor = i64_div(a[j * n + i], piv);
        assert(factor == below_factor(s, n as int, i as int, j as int));
        let mut k: usize = i;
        while k < n
            invariant
                a@.len() == n * n,
                n * n <= usize::MAX,
                s.len() == n * n,
                i < n,
                i < j < n,
                i <= k <= n,
                factor == below_factor(s, n as int, i as int, j as int),
                below_fits(s, n as int, i as int),
                forall|r: int, c: int| 0 <= r < n && 0 <= c < n ==> #[trigger] cell(ints(a@), n as int, r, c) == (
                    if (i < r < j && c >= i) || (r == j && i <= c < k) {
                        cell(s, n as int, r, c) - below_factor(s, n as int, i as int, r) * cell(s, n as int, i as int, c)
                    } else {
                        cell(s, n as int, r, c)
                    }),
            decreases n - k,
        {
            proof {
                lemma_ints_cell(a@, n as int, n as int, j as int, k as int);
                lemma_ints_cell(a@, n as int, n as int, i as int, k as int);
                assert(cell(ints(a@), n as int, j as int, k as int) == cell(s, n as int, j as int, k as int));
                assert(cell(ints(a@), n as int, i as int, k as int) == cell(s, n as int, i as int, k as int));
                assert(fits_i64(below_factor(s, n as int, i as int, j as int) * cell(s, n as int, i as int, k as int)));
            }
            let idx = j * n + k;
            let prod = factor * a[i * n + k];
            let v = a[idx] - prod;
            let ghost a0 = a@;
            a.set(idx, v);
            proof {
                lemma_ints_update(a0, idx as int, v);
                assert forall|r: int, c: int| 0 <= r < n && 0 <= c < n implies #[trigger] cell(ints(a@), n as int, r, c) == (
                    if (i < r < j && c >= i) || (r == j && i <= c < k + 1) {
                        cell(s, n as int, r, c) - below_factor(s, n as int, i as int, r) * cell(s, n as int, i as int, c)
                    } else {
                        cell(s, n as int, r, c)
                    }) by {
                    lemma_cell_update(ints(a0), n as int, n as int, j as int, k as int, v as int, r, c);
                }
            }
            k = k + 1;
        }
        j = j + 1;
    }
    proof {
        let t = eliminate_below(s, n as int, i as int);
        assert forall|r: int, c: int| 0 <= r < n && 0 <= c < n implies #[trigger] cell(ints(a@), n as int, r, c) == cell(t, n as int, r, c) by {
            lemma_below_cell(s, n as int, i as int, r, c);
        }
        lemma_below_cell(s, n as int, i as int, 0, 0);
        lemma_cells_ext(ints(a@), t, n as int, n as int);
    }
}

/// Divides row `i` of an `n x w` table by its entry in column `i`.
fn normalize_row_vec(a: &mut Vec<i64>, n: usize, w: usize, i: usize)
    requires
        old(a)@.len() == n * w,
        n * w <= usize::MAX,
        i < n,
        i < w,
        cell(ints(old(a)@), w as int, i as int, i as int) != 0,
        normalize_fits(ints(old(a)@), w as int, i as int),
    ensures
        final(a)@.len() == n * w,
        ints(final(a)@) == normalize_row(ints(old(a)@), n as int, w as int, i as int),
{
    let ghost s = ints(a@);
    proof {
        lemma_ints_cell(a@, n as int, w as int, i as int, i as int);
    }
    let piv = a[i * w + i];
    let mut j: usize = 0;
    while j < w
        invariant
            a@.len() == n * w,
            n * w <= usize::MAX,
            s.len() == n * w,
            i < n,
            j <= w,
            piv == cell(s, w as int, i as int, i as int),
            piv != 0,
            normalize_fits(s, w as int, i as int),
            forall|r: int, c: int| 0 <= r < n && 0 <= c < w ==> #[trigger] cell(ints(a@), w as int, r, c) == (
                if r == i && c < j {
                    trunc_div(cell(s, w as int, i as int, c), cell(s, w as int, i as int, i as int))
                } else {
                    cell(s, w as int, r, c)
                }),
        decreases w - j,
    {
        proof {
            lemma_ints_cell(a@, n as int, w as int, i as int, j as int);
            assert(cell(ints(a@), w as int, i as int, j as int) == cell(s, w as int, i as int, j as int));
            assert(!(cell(s, w as int, i as int, j as int) == i64::MIN && cell(s, w as int, i as int, i as int) == -1));
        }
        let idx = i * w + j;
        let v = i64_div(a[idx], piv);
        let ghost a0 = a@;
        a.set(idx, v);
        proof {
            lemma_ints_update(a0, idx as int, v);
            assert forall|r: int, c: int| 0 <= r < n && 0 <= c < w implies #[trigger] cell(ints(a@), w as int, r, c) == (
                if r == i && c < j + 1 {
                    trunc_div(cell(s, w as int, i as int, c), cell(s, w as int, i as int, i as int))
                } else {
                    cell(s, w as int, r, c)
                }) by {
                lemma_cell_update(ints(a0), n as int, w as int, i as int, j as int, v as int, r, c);
            }
        }
        j = j + 1;
    }
    proof {
        let t = normalize_row(s, n as int, w as int, i as int);
        assert forall|r: int, c: int| 0 <= r < n && 0 <= c < w implies #[trigger] cell(ints(a@), w as int, r, c) == cell(t, w as int, r, c) by {
            lemma_normalize_cell(s, n as int, w as int, i as int, r, c);
        }
        lemma_normalize_cell(s, n as int, w as int, i as int, i as int, 0);
        lemma_cells_ext(ints(a@), t, n as int, w as int);
    }
}

/// Clears column `i` in every row but `i` by subtracting multiples of row `i`.
fn eliminate_others_vec(a: &mut Vec<i64>, n: usize, w: usize, i: usize)
    requires
        old(a)@.len() == n * w,
        n * w <= usize::MAX,
        i < n,
        i < w,
        others_fits(ints(old(a)@), n as int, w as int, i as int),
    ensures
        final(a)@.len() == n * w,
        ints(final(a)@) == eliminate_others(ints(old(a)@), n as int, w as int, i as int),
{
    let ghost s = ints(a@);
    let mut k: usize = 0;
    while k < n
        invariant
            a@.len() == n * w,
            n * w <= usize::MAX,
            s.len() == n * w,
            i < n,
            i < w,
            k <= n,
            others_fits(s, n as int, w as int, i as int),
            forall|r: int, c: int| 0 <= r < n && 0 <= c < w ==> #[trigger] cell(ints(a@), w as int, r, c) == (
                if r != i && r < k {
                    cell(s, w as int, r, c) - cell(s, w as int, r, i as int) * cell(s, w as int, i as int, c)
                } else {
                    cell(s, w as int, r, c)
                }),
        decreases n - k,
    {
        if k != i {
            proof {
                lemma_ints_cell(a@, n as int, w as int, k as int, i as int);
                assert(cell(ints(a@), w as int, k as int, i as int) == cell(s, w as int, k as int, i as int));
            }
            let factor = a[k * w + i];
            let mut j: usize = 0;
            while j < w
                invariant
                    a@.len() == n * w,
                    n * w <= usize::MAX,
                    s.len() == n * w,
                    i < n,
                    i < w,
                    k < n,
                    k != i,
                    j <= w,
                    factor == cell(s, w as int, k as int, i as int),
                    others_fits(s, n as int, w as int, i as int),
                    forall|r: int, c: int| 0 <= r < n && 0 <= c < w ==> #[trigger] cell(ints(a@), w as int, r, c) == (
                        if (r != i && r < k) || (r == k && c < j) {
                            cell(s, w as int, r, c) - cell(s, w as int, r, i as int) * cell(s, w as int, i as int, c)
                        } else {
                            cell(s, w as int, r, c)
                        }),
                decreases w - j,
            {
                proof {
                    lemma_ints_cell(a@, n as int, w as int, k as int, j as int);
                    lemma_ints_cell(a@, n as int, w as int, i as int, j as int);
                    assert(cell(ints(a@), w as int, k as int, j as int) == cell(s, w as int, k as int, j as int));
                    assert(cell(ints(a@), w as int, i as int, j as int) == cell(s, w as int, i as int, j as int));
                    assert(fits_i64(cell(s, w as int, k as int, i as int) * cell(s, w as int, i as int, j as int)));
                }
                let idx = k * w + j;
                let prod = factor * a[i * w + j];
                let v = a[idx] - prod;
                let ghost a0 = a@;
                a.set(idx, v);
                proof {
                    lemma_ints_update(a0, idx as int, v);
                    assert forall|r: int, c: int| 0 <= r < n && 0 <= c < w implies #[trigger] cell(ints(a@), w as int, r, c) == (
                        if (r != i && r < k) || (r == k && c < j + 1) {
                            cell(s, w as int, r, c) - cell(s, w as int, r, i as int) * cell(s, w as int, i as int, c)
                        } else {
                            cell(s, w as int, r, c)
                        }) by {
                        lemma_cell_update(ints(a0), n as int, w as int, k as int, j as int, v as int, r, c);
                    }
                }
                j = j + 1;
            }
        }
        k = k + 1;
    }
    proof {
        let t = eliminate_others(s, n as int, w as int, i as int);
        assert forall|r: int, c: int| 0 <= r < n && 0 <= c < w implies #[trigger] cell(ints(a@), w as int, r, c) == cell(t, w as int, r, c) by {
            lemma_others_cell(s, n as int, w as int, i as int, r, c);
        }
        lemma_others_cell(s, n as int, w as int, i as int, i as int, 0);
        lemma_cells_ext(ints(a@), t, n as int, w as int);
    }
}

proof fn lemma_augment_cell(m: MatrixModel, r: int, c: int)
    requires
        0 <= r < m.rows,
        0 <= c < aug_width(m.rows as int),
    ensures
        augment(m).len() == m.rows * aug_width(m.rows as int),
        cell(augment(m), aug_width(m.rows as int), r, c) == if c < m.rows {
            entry(m, r, c)
        } else if c < 2 * m.rows {
            if c - m.rows == r { 1int } else { 0int }
        } else {
            m.constant[r] as int
        },
{
    lemma_table_shape(m.rows as int, aug_width(m.rows as int), r, c);
}

proof fn lemma_inverse_data_cell(m: MatrixModel, r: int, c: int)
    requires
        0 <= r < m.rows,
        0 <= c < m.rows,
    ensures
        inverse_data(m).len() == m.rows * m.rows,
        cell(inverse_data(m), m.rows as int, r, c) == cell(gj_final(m), aug_width(m.rows as int), r, m.rows + c),
        0 <= r * m.rows + c < m.rows * m.rows,
{
    lemma_table_shape(m.rows as int, m.rows as int, r, c);
}

proof fn lemma_ints_push(a: Seq<i64>, v: i64)
    ensures
        ints(a.push(v)) == ints(a).push(v as int),
{
    assert(ints(a.push(v)) =~= ints(a).push(v as int));
}

impl Matrix {
    /// Square, and forward elimination (row exchanges, truncating division)
    /// finds a non-zero pivot in every column.
    pub fn is_invertible(&self) -> (r: bool)
        requires
            well_formed(self@),
            self.rows * self.cols <= usize::MAX,
            invertible_fits(self@),
        ensures
            r == invertible_model(self@),
    {
        if self.rows != self.cols {
            return false;
        }
        let n = self.rows;
        let mut mat = copy_i64s(&self.data);
        let ghost s0 = ints(self@.data);
        let mut i: usize = 0;
        while i < n
            invariant
                n == self.rows,
                n == self.cols,
                s0 == ints(self@.data),
                mat@.len() == n * n,
                n * n <= usize::MAX,
                i <= n,
                forward_fits(s0, n as int),
                ints(mat@) == forward_state(s0, n as int, i as int),
                forward_pivots(s0, n as int, i as int),
            decreases n - i,
        {
            let pivot = find_pivot(&mat, n, n, i, i);
            let ghost st = ints(mat@);
            proof {
                lemma_pivot_row(st, n as int, n as int, i as int, i as int);
            }
            if pivot == n {
                proof {
                    assert(pivot_row(forward_state(s0, n as int, i as int), n as int, n as int, i as int, i as int) == n);
                }
                return false;
            }
            if pivot != i {
                swap_rows_vec(&mut mat, n, n, i, pivot);
            } else {
                proof {
                    lemma_swap_same(st, n as int, n as int, i as int);
                }
            }
            proof {
                assert(ints(mat@) == forward_swapped(s0, n as int, i as int));
                assert(below_fits(forward_swapped(s0, n as int, i as int), n as int, i as int));
                lemma_swap_cell(st, n as int, n as int, i as int, pivot as int, i as int, i as int);
            }
            eliminate_below_vec(&mut mat, n, i);
            proof {
                assert(forward_state(s0, n as int, i + 1) == eliminate_below(forward_swapped(s0, n as int, i as int), n as int, i as int));
                assert forall|k: int| 0 <= k < i + 1 implies pivot_row(#[trigger] forward_state(s0, n as int, k), n as int, n as int, k, k) < n by {
                    if k < i {
                        assert(forward_pivots(s0, n as int, i as int));
                    }
                }
            }
            i = i + 1;
        }
        true
    }

    /// The inverse by Gauss-Jordan elimination of `[A | I | c]` (truncating
    /// division): the middle block of the final table, and the negated last
    /// column as the translation, so that the inverse maps `A x + c` back
    /// to `x` where the division is exact.
    /// `None` when the matrix is not invertible or a pivot is missing.
    pub fn inverse(&self) -> (r: Option<Matrix>)
        requires
            well_formed(self@),
            self.rows * self.cols <= usize::MAX,
            inverse_fits(self@),
        ensures
            r is Some <==> inverse_exists(self@),
            r matches Some(m) ==> {
                &&& m.rows == self.rows
                &&& m.cols == self.rows
                &&& well_formed(m@)
                &&& ints(m@.data) == inverse_data(self@)
                &&& ints(m@.constant) == inverse_constant(self@)
            },
    {
        if !self.is_invertible() {
            return None;
        }
        let n = self.rows;
        let ghost ni = n as int;
        proof {
            if n > 0 {
                assert(2 * ni + 1 <= ni * (2 * ni + 1)) by (nonlinear_arith)
                    requires ni > 0;
            }
        }
        let w = 2 * n + 1;
        let ghost a0 = augment(self@);
        proof {
            assert(0 <= ni * (w as int)) by (nonlinear_arith)
                requires 0 <= ni, 0 <= w;
        }
        // [A | I | c], row by row.
        let mut aug: Vec<i64> = Vec::new();
        let mut i: usize = 0;
        while i < n
            invariant
                n == self.rows,
                n == self.cols,
                well_formed(self@),
                w == aug_width(n as int),
                n * w <= usize::MAX,
                n * n <= usize::MAX,
                a0 == augment(self@),
                a0.len() == n * w,
                i <= n,
                aug@.len() == i * w,
                ints(aug@) == a0.subrange(0, i * w),
            decreases n - i,
        {
            let mut j: usize = 0;
            while j < w
                invariant
                    n == self.rows,
                    n == self.cols,
                    well_formed(self@),
                    w == aug_width(n as int),
                    n * w <= usize::MAX,
                    n * n <= usize::MAX,
                    a0 == augment(self@),
                    a0.len() == n * w,
                    i < n,
                    j <= w,
                    aug@.len() == i * w + j,
                    ints(aug@) == a0.subrange(0, i * w + j),
                decreases w - j,
            {
                proof {
                    lemma_index_in_range(i as int, j as int, n as int, w as int);
                    lemma_augment_cell(self@, i as int, j as int);
                }
                let v: i64 = if j < n {
                    proof {
                        lemma_index_in_range(i as int, j as int, n as int, n as int);
                    }
                    self.data[i * n + j]
                } else if j < 2 * n {
                    if j - n == i { 1 } else { 0 }
                } else {
                    self.constant[i]
                };
                proof {
                    lemma_ints_push(aug@, v);
                    assert(a0.subrange(0, i * w + j + 1) =~= a0.subrange(0, i * w + j).push(a0[i * w + j]));
                }
                aug.push(v);
                j = j + 1;
            }
            proof {
                assert((i + 1) * w == i * w + w) by (nonlinear_arith);
            }
            i = i + 1;
        }
        proof {
            assert(a0.subrange(0, n * w) =~= a0);
        }
        // Gauss-Jordan elimination.
        let mut i: usize = 0;
        while i < n
            invariant
                n == self.rows,
                w == aug_width(n as int),
                n * w <= usize::MAX,
                a0 == augment(self@),
                aug@.len() == n * w,
                i <= n,
                invertible_model(self@),
                gj_fits(a0, n as int),
                ints(aug@) == gj_state(a0, n as int, i as int),
                gj_pivots(a0, n as int, i as int),
            decreases n - i,
        {
            let pivot = find_pivot(&aug, n, w, i, i);
            let ghost st = ints(aug@);
            proof {
                lemma_pivot_row(st, w as int, n as int, i as int, i as int);
            }
            if pivot == n {
                proof {
                    assert(pivot_row(gj_state(a0, n as int, i as int), w as int, n as int, i as int, i as int) == n);
                }
                return None;
            }
            if pivot != i {
                swap_rows_vec(&mut aug, n, w, i, pivot);
            } else {
                proof {
                    lemma_swap_same(st, n as int, w as int, i as int);
                }
            }
            proof {
                assert(ints(aug@) == gj_swapped(a0, n as int, i as int));
                assert(normalize_fits(gj_swapped(a0, n as int, i as int), w as int, i as int));
                lemma_swap_cell(st, n as int, w as int, i as int, pivot as int, i as int, i as int);
            }
            normalize_row_vec(&mut aug, n, w, i);
            eliminate_others_vec(&mut aug, n, w, i);
            proof {
                assert(gj_state(a0, n as int, i + 1) == eliminate_others(gj_normalized(a0, n as int, i as int), n as int, w as int, i as int));
                assert forall|k: int| 0 <= k < i + 1 implies pivot_row(#[trigger] gj_state(a0, n as int, k), aug_width(n as int), n as int, k, k) < n by {
                    if k < i {
                        assert(gj_pivots(a0, n as int, i as int));
                    }
                }
            }
            i = i + 1;
        }
        // The middle block and the last column.
        let ghost fin = gj_final(self@);
        let ghost d = inverse_data(self@);
        let ghost cst = inverse_constant(self@);
        let mut data: Vec<i64> = Vec::new();
        let mut constant: Vec<i64> = Vec::new();
        let mut i: usize = 0;
        while i < n
            invariant
                n == self.rows,
                w == aug_width(n as int),
                n * w <= usize::MAX,
                aug@.len() == n * w,
                ints(aug@) == fin,
                fin == gj_final(self@),
                d == inverse_data(self@),
                cst == inverse_constant(self@),
                d.len() == n * n,
                i <= n,
                data@.len() == i * n,
                ints(data@) == d.subrange(0, i * n),
                constant@.len() == i,
                ints(constant@) == cst.subrange(0, i as int),
                forall|r: int| 0 <= r < n ==> #[trigger] cell(fin, w as int, r, 2 * n) > i64::MIN,
            decreases n - i,
        {
            let mut j: usize = 0;
            while j < n
                invariant
                    n == self.rows,
                    w == aug_width(n as int),
                    n * w <= usize::MAX,
                    aug@.len() == n * w,
                    ints(aug@) == fin,
                    fin == gj_final(self@),
                    d == inverse_data(self@),
                    d.len() == n * n,
                    i < n,
                    j <= n,
                    data@.len() == i * n + j,
                    ints(data@) == d.subrange(0, i * n + j),
                decreases n - j,
            {
                proof {
                    lemma_inverse_data_cell(self@, i as int, j as int);
                    lemma_ints_cell(aug@, n as int, w as int, i as int, (n + j) as int);
                    lemma_ints_push(data@, aug@[i * w + n + j]);
                    assert(d.subrange(0, i * n + j + 1) =~= d.subrange(0, i * n + j).push(d[i * n + j]));
                }
                data.push(aug[i * w + n + j]);
                j = j + 1;
            }
            proof {
                assert((i + 1) * n == i * n + n) by (nonlinear_arith);
                lemma_ints_cell(aug@, n as int, w as int, i as int, 2 * n as int);
                assert(cell(fin, w as int, i as int, 2 * n) > i64::MIN);
                lemma_ints_push(constant@, (-aug@[i * w + 2 * n]) as i64);
                assert(cst.subrange(0, i + 1) =~= cst.subrange(0, i as int).push(cst[i as int]));
            }
            constant.push(-aug[i * w + 2 * n]);
            i = i + 1;
        }
        proof {
            assert(d.subrange(0, n * n) =~= d);
            assert(cst.subrange(0, n as int) =~= cst);
        }
        Some(Matrix { rows: n, cols: n, data, constant })
    }
}

/// Every piece of the map can go through `Matrix::inverse` and, where the
/// inverse exists, its domain fits the inverted matrix.
pub open spec fn piece_inverse_ok(p: PieceModel) -> bool {
    &&& well_formed(p.matrix)
    &&& p.matrix.rows * p.matrix.cols <= usize::MAX
    &&& inverse_fits(p.matrix)
    &&& inverse_exists(p.matrix) ==> p.domain.dims == p.matrix.rows
}

impl AffineMap {
    /// Inverts every piece on its own domain; `None` as soon as one piece's
    /// matrix has no inverse.
    pub fn inverse(&self) -> (r: Option<AffineMap>)
        requires
            forall|i: int| 0 <= i < self@.len() && (forall|j: int| 0 <= j < i ==> inverse_exists(#[trigger] self@[j].matrix))
                ==> piece_inverse_ok(#[trigger] self@[i]),
        ensures
            r is Some <==> forall|i: int| 0 <= i < self@.len() ==> inverse_exists(#[trigger] self@[i].matrix),
            r matches Some(m) ==> {
                &&& m@.len() == self@.len()
                &&& forall|i: int| 0 <= i < self@.len() ==> {
                    &&& (#[trigger] m@[i]).domain == self@[i].domain
                    &&& m@[i].matrix.rows == self@[i].matrix.rows
                    &&& m@[i].matrix.cols == self@[i].matrix.rows
                    &&& ints(m@[i].matrix.data) == inverse_data(self@[i].matrix)
                    &&& ints(m@[i].matrix.constant) == inverse_constant(self@[i].matrix)
                }
            },
    {
        let mut inv_pieces: Vec<AffineMapPiece> = Vec::new();
        let mut i: usize = 0;
        while i < self.pieces.len()
            invariant
                i <= self.pieces@.len(),
                forall|k: int| 0 <= k < self@.len() && (forall|j: int| 0 <= j < k ==> inverse_exists(#[trigger] self@[j].matrix))
                    ==> piece_inverse_ok(#[trigger] self@[k]),
                forall|k: int| 0 <= k < i ==> inverse_exists(#[trigger] self@[k].matrix),
                inv_pieces@.len() == i,
                forall|k: int| 0 <= k < i ==> {
                    &&& (#[trigger] inv_pieces@[k])@.domain == self@[k].domain
                    &&& inv_pieces@[k]@.matrix.rows == self@[k].matrix.rows
                    &&& inv_pieces@[k]@.matrix.cols == self@[k].matrix.rows
                    &&& ints(inv_pieces@[k]@.matrix.data) == inverse_data(self@[k].matrix)
                    &&& ints(inv_pieces@[k]@.matrix.constant) == inverse_constant(self@[k].matrix)
                },
            decreases self.pieces@.len() - i,
        {
            let piece = &self.pieces[i];
            proof {
                assert(self@[i as int] == piece@);
                assert(piece_inverse_ok(self@[i as int]));
            }
            match piece.matrix.inverse() {
                Some(inv_matrix) => {
                    let np = AffineMapPiece::new(piece.domain.clone(), inv_matrix);
                    inv_pieces.push(np);
                },
                None => {
                    return None;
                },
            }
            i = i + 1;
        }
        let r = AffineMap::new(inv_pieces);
        proof {
            assert forall|k: int| 0 <= k < self@.len() implies (#[trigger] r@[k]).domain == self@[k].domain by {
                assert(r@[k] == inv_pieces@[k]@);
            }
        }
        Some(r)
    }
}

} // verus!
