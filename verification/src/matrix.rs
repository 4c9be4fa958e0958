//! The square correlation-or-covariance matrix of a data matrix.

use vstd::prelude::*;
use crate::fixed::{SCALE, tdiv, sqf, clamp_unit, isqrt, div_trunc, clamp_to_unit, lemma_sqf_square};
use crate::sums::{wf_data, col_count, t_stat, col_sum, lemma_col_dot_sym, column_sums, t_of};

verus! {

/// Which square matrix to compute.
#[derive(Clone, Copy, Debug, PartialEq, Eq, Structural)]
pub enum MatrixKind {
    Correlation,
    Covariance,
}

/// Why a calculation could not produce a result.
#[derive(Clone, Copy, Debug, PartialEq, Eq, Structural)]
pub enum MatrixError {
    /// Fewer than two observations: variances are undefined.
    InsufficientData,
    /// The variable-name list does not match the matrix width.
    DimensionMismatch,
    /// The correlation matrix admits no (approximate) inverse.
    SingularMatrix,
}

/// Zero if `t` is negative, else `t`.  The diagonal `t_stat` is never
/// negative (`lemma_t_diag_nonneg`), so the guard changes nothing; it
/// keeps the cell definition total.
pub open spec fn guard(t: int) -> int {
    if t > 0 {
        t
    } else {
        0
    }
}

/// The Pearson correlation of columns `i` and `j`, as a raw scalar:
/// `SCALE * t(i,j) / sqrt(t(i,i) * t(j,j))`, truncated, clamped into
/// the unit interval.  When a column has no variation the denominator
/// is zero and the cell is defined as `SCALE` on the diagonal and `0`
/// elsewhere.
pub open spec fn corr_cell(d: Seq<Seq<i128>>, i: int, j: int) -> int {
    let dsq = guard(t_stat(d, i, i)) * guard(t_stat(d, j, j));
    if dsq > 0 {
        clamp_unit(tdiv(SCALE * t_stat(d, i, j), sqf(dsq)))
    } else if i == j {
        SCALE as int
    } else {
        0
    }
}

/// The sample covariance of columns `i` and `j`, as a raw scalar:
/// `t(i,j) / (SCALE * n * (n - 1))`, truncated (Bessel's correction).
pub open spec fn cov_cell(d: Seq<Seq<i128>>, i: int, j: int) -> int {
    tdiv(t_stat(d, i, j), SCALE * d.len() * (d.len() - 1))
}

/// One cell of the requested matrix.
pub open spec fn matrix_cell(d: Seq<Seq<i128>>, kind: MatrixKind, i: int, j: int) -> int {
    match kind {
        MatrixKind::Correlation => corr_cell(d, i, j),
        MatrixKind::Covariance => cov_cell(d, i, j),
    }
}

/// `m` is a `c x c` matrix whose cells are those of `matrix_cell`.
pub open spec fn is_computed_matrix(
    m: Seq<Seq<i128>>,
    d: Seq<Seq<i128>>,
    kind: MatrixKind,
    c: int,
) -> bool {
    &&& m.len() == c
    &&& forall|i: int| 0 <= i < c ==> (#[trigger] m[i]).len() == c
    &&& forall|i: int, j: int|
        0 <= i < c && 0 <= j < c ==> #[trigger] m[i][j] == matrix_cell(d, kind, i, j)
}

/// The correlation of columns `i` and `j`, from precomputed column sums.
fn corr_of(data: &Vec<Vec<i128>>, sums: &Vec<i128>, i: usize, j: usize) -> (r: i128)
    requires
        wf_data(data.deep_view(), sums.len() as int),
        i < sums.len(),
        j < sums.len(),
        forall|q: int| 0 <= q < sums.len() ==> sums[q] == col_sum(data.deep_view(), q),
    ensures
        r == corr_cell(data.deep_view(), i as int, j as int),
{
    let ti = t_of(data, sums, i, i);
    let tj = t_of(data, sums, j, j);
    let tij = t_of(data, sums, i, j);
    let gi: i128 = if ti > 0 {
        ti
    } else {
        0
    };
    let gj: i128 = if tj > 0 {
        tj
    } else {
        0
    };
    proof {
        assert(0 <= (gi as int) * (gj as int) <= 0x4000_0000_0000_0000_0000_0000_0000_0000)
            by (nonlinear_arith)
            requires
                0 <= gi <= 0x8000_0000_0000_0000i128 && 0 <= gj <= 0x8000_0000_0000_0000i128;
    }
    let dsq: i128 = gi * gj;
    if dsq > 0 {
        let dd = isqrt(dsq);
        proof {
            assert(dd >= 1) by (nonlinear_arith)
                requires dsq > 0 && dd >= 0 && (dsq as int) < ((dd as int) + 1) * ((dd as int) + 1);
        }
        clamp_to_unit(div_trunc(SCALE * tij, dd))
    } else if i == j {
        SCALE
    } else {
        0
    }
}

/// Compute the full correlation or covariance matrix.
///
/// With fewer than two rows no variance exists and the calculation
/// fails with `InsufficientData`; otherwise every cell of the result
/// is exactly `matrix_cell` of the data.
pub fn calculate_matrix(data: &Vec<Vec<i128>>, kind: MatrixKind) -> (r: Result<
    Vec<Vec<i128>>,
    MatrixError,
>)
    requires
        wf_data(data.deep_view(), col_count(data.deep_view())),
    ensures
        r is Err <==> data.deep_view().len() < 2,
        r matches Err(e) ==> e == MatrixError::InsufficientData,
        r matches Ok(m) ==> is_computed_matrix(
            m.deep_view(),
            data.deep_view(),
            kind,
            col_count(data.deep_view()),
        ),
{
    let d = Ghost(data.deep_view());
    let n_rows: usize = data.len();
    if n_rows < 2 {
        return Err(MatrixError::InsufficientData);
    }
    let sums = column_sums(data);
    let n_cols: usize = sums.len();
    proof {
        assert(2 * SCALE <= SCALE * (n_rows as int) * ((n_rows as int) - 1) <= SCALE * 1024
            * 1023) by (nonlinear_arith)
            requires 2 <= n_rows <= 1024 && SCALE == 4096i128;
    }
    let den: i128 = SCALE * (n_rows as i128) * ((n_rows as i128) - 1);
    let mut result: Vec<Vec<i128>> = Vec::new();
    let mut i: usize = 0;
    while i < n_cols
        invariant
            d@ == data.deep_view(),
            wf_data(d@, n_cols as int),
            n_cols == col_count(d@),
            n_cols == sums.len(),
            forall|q: int| 0 <= q < sums.len() ==> sums[q] == col_sum(d@, q),
            2 <= n_rows <= 1024,
            n_rows == d@.len(),
            den == SCALE * (n_rows as int) * ((n_rows as int) - 1),
            2 * SCALE <= den <= SCALE * 1024 * 1023,
            result.len() == i,
            i <= n_cols,
            forall|p: int| 0 <= p < i ==> (#[trigger] result@[p])@.len() == n_cols,
            forall|p: int, q: int|
                0 <= p < i && 0 <= q < n_cols ==> #[trigger] result@[p]@[q] == matrix_cell(
                    d@,
                    kind,
                    p,
                    q,
                ),
        decreases n_cols - i,
    {
        let mut row: Vec<i128> = Vec::new();
        let mut j: usize = 0;
        while j < n_cols
            invariant
                d@ == data.deep_view(),
                wf_data(d@, n_cols as int),
                n_cols == col_count(d@),
                n_cols == sums.len(),
                forall|q: int| 0 <= q < sums.len() ==> sums[q] == col_sum(d@, q),
                2 <= n_rows <= 1024,
                n_rows == d@.len(),
                den == SCALE * (n_rows as int) * ((n_rows as int) - 1),
                2 * SCALE <= den <= SCALE * 1024 * 1023,
                i < n_cols,
                row.len() == j,
                j <= n_cols,
                forall|q: int| 0 <= q < j ==> row[q] == matrix_cell(d@, kind, i as int, q),
            decreases n_cols - j,
        {
            let v: i128 = match kind {
                MatrixKind::Correlation => corr_of(data, &sums, i, j),
                MatrixKind::Covariance => {
                    let t = t_of(data, &sums, i, j);
                    div_trunc(t, den)
                },
            };
            row.push(v);
            j = j + 1;
        }
        result.push(row);
        i = i + 1;
    }
    proof {
        assert forall|p: int| 0 <= p < n_cols implies (#[trigger] result.deep_view()[p]).len()
            == n_cols by {
            assert(result.deep_view()[p] =~= result@[p].deep_view());
        }
        assert forall|p: int, q: int| 0 <= p < n_cols && 0 <= q < n_cols implies #[trigger] result
            .deep_view()[p][q] == matrix_cell(d@, kind, p, q) by {
            assert(result.deep_view()[p] =~= result@[p].deep_view());
            assert(result@[p].deep_view()[q] == result@[p]@[q]);
        }
    }
    Ok(result)
}

/// The correlation matrix has `SCALE` (exactly 1.0) on its diagonal.
pub proof fn lemma_correlation_diagonal(d: Seq<Seq<i128>>, i: int)
    ensures
        corr_cell(d, i, i) == SCALE,
{
    let t = t_stat(d, i, i);
    if t > 0 {
        assert(t * t > 0) by (nonlinear_arith)
            requires t > 0;
        lemma_sqf_square(t);
        assert(tdiv(SCALE * t, t) == SCALE) by (nonlinear_arith)
            requires t > 0 && SCALE == 4096i128;
    }
}

/// Every correlation cell lies in the unit interval `[-1.0, 1.0]`.
pub proof fn lemma_correlation_range(d: Seq<Seq<i128>>, i: int, j: int)
    ensures
        -SCALE <= corr_cell(d, i, j) <= SCALE,
{
}

/// Correlation and covariance matrices are symmetric cell by cell.
pub proof fn lemma_matrix_symmetric(d: Seq<Seq<i128>>, kind: MatrixKind, i: int, j: int)
    ensures
        matrix_cell(d, kind, i, j) == matrix_cell(d, kind, j, i),
{
    lemma_col_dot_sym(d, i, j, d.len() as int);
    assert(t_stat(d, i, j) == t_stat(d, j, i));
}

/// A column with zero variance is perfectly correlated with itself
/// and uncorrelated with every other column; no cell is left undefined.
pub proof fn lemma_zero_variance(d: Seq<Seq<i128>>, i: int, j: int)
    requires
        t_stat(d, i, i) == 0,
    ensures
        corr_cell(d, i, i) == SCALE,
        i != j ==> corr_cell(d, i, j) == 0,
        i != j ==> corr_cell(d, j, i) == 0,
{
    lemma_correlation_diagonal(d, i);
    if i != j {
        assert(guard(t_stat(d, i, i)) == 0);
        assert(guard(t_stat(d, i, i)) * guard(t_stat(d, j, j)) == 0) by (nonlinear_arith)
            requires guard(t_stat(d, i, i)) == 0;
        assert(guard(t_stat(d, j, j)) * guard(t_stat(d, i, i)) == 0) by (nonlinear_arith)
            requires guard(t_stat(d, i, i)) == 0;
    }
}

} // verus!
