//! Per-variable descriptive statistics: mean, standard deviation,
//! sample size.

use vstd::prelude::*;
use crate::fixed::{SCALE, tdiv, sqf, isqrt, div_trunc};
use crate::sums::{wf_data, col_count, col_sum, t_stat, lemma_t_diag_nonneg, column_sums, t_of};
use crate::matrix::{MatrixError, cov_cell};

verus! {

/// Mean, standard deviation and sample size of one variable.
#[derive(Debug)]
pub struct DescriptiveStatistic {
    pub variable: String,
    pub mean: i128,
    pub std_deviation: i128,
    pub analysis_n: usize,
}

/// The mean of column `j`, as a raw scalar: `sum / n`, truncated.
pub open spec fn mean_cell(d: Seq<Seq<i128>>, j: int) -> int {
    tdiv(col_sum(d, j), d.len() as int)
}

/// The sample variance of column `j`: exactly the diagonal cell of
/// the covariance matrix.
pub open spec fn variance_cell(d: Seq<Seq<i128>>, j: int) -> int {
    cov_cell(d, j, j)
}

/// The sample standard deviation of column `j`:
/// `sqrt(variance)`, as a raw scalar.  The negative branch keeps the
/// cell total; `lemma_variance_nonneg` shows it is never taken.
pub open spec fn std_cell(d: Seq<Seq<i128>>, j: int) -> int {
    if variance_cell(d, j) >= 0 {
        sqf(SCALE * variance_cell(d, j))
    } else {
        0
    }
}

/// The covariance diagonal is the sample variance that the
/// descriptive statistics report: the two code paths agree exactly.
pub proof fn lemma_variance_matches_covariance_diagonal(d: Seq<Seq<i128>>, j: int)
    ensures
        variance_cell(d, j) == cov_cell(d, j, j),
{
}

/// With at least two observations the sample variance is nonnegative,
/// by Cauchy-Schwarz against the all-ones vector.
pub proof fn lemma_variance_nonneg(d: Seq<Seq<i128>>, j: int)
    requires
        d.len() >= 2,
    ensures
        variance_cell(d, j) >= 0,
{
    lemma_t_diag_nonneg(d, j);
    let t = t_stat(d, j, j);
    let den = SCALE * d.len() * (d.len() - 1);
    assert(den > 0) by (nonlinear_arith)
        requires den == SCALE * d.len() * (d.len() - 1) && d.len() >= 2 && SCALE == 4096i128;
    vstd::arithmetic::div_mod::lemma_div_pos_is_pos(t, den);
}

/// Compute one record per variable, in the order of `names`.
///
/// Fails with `InsufficientData` when there are fewer than two rows
/// and with `DimensionMismatch` when the name list does not match the
/// column count.
pub fn calculate_descriptive_statistics(data: &Vec<Vec<i128>>, names: &Vec<String>) -> (r: Result<
    Vec<DescriptiveStatistic>,
    MatrixError,
>)
    requires
        wf_data(data.deep_view(), col_count(data.deep_view())),
    ensures
        r is Err <==> (data.deep_view().len() < 2 || names@.len() != col_count(data.deep_view())),
        r matches Err(e) ==> (e == MatrixError::InsufficientData <==> data.deep_view().len() < 2),
        r matches Err(e) ==> (e == MatrixError::DimensionMismatch <==> (data.deep_view().len() >= 2
            && names@.len() != col_count(data.deep_view()))),
        r matches Ok(v) ==> {
            &&& v@.len() == col_count(data.deep_view())
            &&& forall|j: int|
                0 <= j < v@.len() ==> (#[trigger] v@[j]).variable@ == names@[j]@
            &&& forall|j: int|
                0 <= j < v@.len() ==> (#[trigger] v@[j]).mean == mean_cell(data.deep_view(), j)
            &&& forall|j: int|
                0 <= j < v@.len() ==> (#[trigger] v@[j]).std_deviation == std_cell(
                    data.deep_view(),
                    j,
                )
            &&& forall|j: int|
                0 <= j < v@.len() ==> (#[trigger] v@[j]).analysis_n == data.deep_view().len()
        },
{
    let d = Ghost(data.deep_view());
    let n_rows: usize = data.len();
    if n_rows < 2 {
        return Err(MatrixError::InsufficientData);
    }
    let sums = column_sums(data);
    let n_cols: usize = sums.len();
    if names.len() != n_cols {
        return Err(MatrixError::DimensionMismatch);
    }
    proof {
        assert(2 * SCALE <= SCALE * (n_rows as int) * ((n_rows as int) - 1) <= SCALE * 1024
            * 1023) by (nonlinear_arith)
            requires 2 <= n_rows <= 1024 && SCALE == 4096i128;
    }
    let den: i128 = SCALE * (n_rows as i128) * ((n_rows as i128) - 1);
    let mut stats: Vec<DescriptiveStatistic> = Vec::new();
    let mut j: usize = 0;
    while j < n_cols
        invariant
            d@ == data.deep_view(),
            wf_data(d@, n_cols as int),
            n_cols == col_count(d@),
            n_cols == sums.len(),
            n_cols == names.len(),
            forall|q: int| 0 <= q < sums.len() ==> sums[q] == col_sum(d@, q),
            2 <= n_rows <= 1024,
            n_rows == d@.len(),
            den == SCALE * (n_rows as int) * ((n_rows as int) - 1),
            2 * SCALE <= den <= SCALE * 1024 * 1023,
            stats.len() == j,
            j <= n_cols,
            forall|q: int| 0 <= q < j ==> (#[trigger] stats@[q]).variable@ == names@[q]@,
            forall|q: int| 0 <= q < j ==> (#[trigger] stats@[q]).mean == mean_cell(d@, q),
            forall|q: int| 0 <= q < j ==> (#[trigger] stats@[q]).std_deviation == std_cell(d@, q),
            forall|q: int| 0 <= q < j ==> (#[trigger] stats@[q]).analysis_n == n_rows,
        decreases n_cols - j,
    {
        proof {
            crate::sums::lemma_col_sum_bound(d@, n_cols as int, j as int, n_rows as int);
            assert(sums@[j as int] == col_sum(d@, j as int));
            assert(col_sum(d@, j as int) == crate::sums::col_sum_pfx(d@, j as int, n_rows as int));
            assert(-((n_rows as int) * crate::fixed::MAX_RAW) <= sums@[j as int] <= (n_rows as int)
                * crate::fixed::MAX_RAW);
        }
        let mean = div_trunc(sums[j], n_rows as i128);
        let t = t_of(data, &sums, j, j);
        let var = div_trunc(t, den);
        let std_dev: i128 = if var >= 0 {
            isqrt(SCALE * var)
        } else {
            0
        };
        let name: String = names[j].clone();
        stats.push(
            DescriptiveStatistic {
                variable: name,
                mean,
                std_deviation: std_dev,
                analysis_n: n_rows,
            },
        );
        j = j + 1;
    }
    Ok(stats)
}

} // verus!
