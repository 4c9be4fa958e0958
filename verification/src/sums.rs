//! Column sums and centered cross products of a data matrix.
//!
//! The data matrix is a sequence of rows; every scalar is a raw
//! fixed-point value (see `fixed`).  For columns `i` and `j` of a
//! matrix with `n` rows the centered cross product is
//! `t(i, j) == n * sum_k(x_ki * x_kj) - sum_k(x_ki) * sum_k(x_kj)`,
//! which equals `n` times the covariance numerator
//! `sum_k((x_ki - mean_i) * (x_kj - mean_j))`.

use vstd::prelude::*;
use crate::fixed::{MAX_RAW, MAX_ROWS, MAX_COLS};

verus! {

/// Every row has exactly `c` cells.
pub open spec fn is_rect(d: Seq<Seq<i128>>, c: int) -> bool {
    forall|k: int| 0 <= k < d.len() ==> (#[trigger] d[k]).len() == c
}

/// Every cell's magnitude is at most `MAX_RAW`.
pub open spec fn is_bounded(d: Seq<Seq<i128>>) -> bool {
    forall|k: int, j: int|
        0 <= k < d.len() && 0 <= j < d[k].len() ==> -MAX_RAW <= #[trigger] d[k][j] <= MAX_RAW
}

/// A data matrix the calculators accept: rectangular with `c` columns,
/// within the size and magnitude caps.
pub open spec fn wf_data(d: Seq<Seq<i128>>, c: int) -> bool {
    &&& is_rect(d, c)
    &&& is_bounded(d)
    &&& d.len() <= MAX_ROWS
    &&& 0 <= c <= MAX_COLS
}

/// Sum of column `j` over the first `k` rows.
pub open spec fn col_sum_pfx(d: Seq<Seq<i128>>, j: int, k: int) -> int
    decreases k,
{
    if k <= 0 {
        0
    } else {
        col_sum_pfx(d, j, k - 1) + d[k - 1][j]
    }
}

/// Sum of column `j` over all rows.
pub open spec fn col_sum(d: Seq<Seq<i128>>, j: int) -> int {
    col_sum_pfx(d, j, d.len() as int)
}

/// Dot product of columns `i` and `j` over the first `k` rows.
pub open spec fn col_dot_pfx(d: Seq<Seq<i128>>, i: int, j: int, k: int) -> int
    decreases k,
{
    if k <= 0 {
        0
    } else {
        col_dot_pfx(d, i, j, k - 1) + d[k - 1][i] * d[k - 1][j]
    }
}

/// Dot product of columns `i` and `j` over all rows.
pub open spec fn col_dot(d: Seq<Seq<i128>>, i: int, j: int) -> int {
    col_dot_pfx(d, i, j, d.len() as int)
}

/// Centered cross product of columns `i` and `j`, scaled by `n`.
pub open spec fn t_stat(d: Seq<Seq<i128>>, i: int, j: int) -> int {
    d.len() * col_dot(d, i, j) - col_sum(d, i) * col_sum(d, j)
}

/// A column sum over `k` rows is at most `k * MAX_RAW` in magnitude.
pub proof fn lemma_col_sum_bound(d: Seq<Seq<i128>>, c: int, j: int, k: int)
    requires
        is_rect(d, c),
        is_bounded(d),
        0 <= j < c,
        0 <= k <= d.len(),
    ensures
        -(k * MAX_RAW) <= col_sum_pfx(d, j, k) <= k * MAX_RAW,
    decreases k,
{
    if k > 0 {
        lemma_col_sum_bound(d, c, j, k - 1);
    }
}

/// A column dot product over `k` rows is at most `k * MAX_RAW^2` in magnitude.
pub proof fn lemma_col_dot_bound(d: Seq<Seq<i128>>, c: int, i: int, j: int, k: int)
    requires
        is_rect(d, c),
        is_bounded(d),
        0 <= i < c,
        0 <= j < c,
        0 <= k <= d.len(),
    ensures
        -(k * MAX_RAW * MAX_RAW) <= col_dot_pfx(d, i, j, k) <= k * MAX_RAW * MAX_RAW,
    decreases k,
{
    if k > 0 {
        lemma_col_dot_bound(d, c, i, j, k - 1);
        let x = d[k - 1][i] as int;
        let y = d[k - 1][j] as int;
        assert(-(MAX_RAW * MAX_RAW) <= x * y <= MAX_RAW * MAX_RAW) by (nonlinear_arith)
            requires
                -MAX_RAW <= x <= MAX_RAW && -MAX_RAW <= y <= MAX_RAW && MAX_RAW == 2097152i128;
        assert((k - 1) * MAX_RAW * MAX_RAW + MAX_RAW * MAX_RAW == k * MAX_RAW * MAX_RAW)
            by (nonlinear_arith);
    }
}

/// The centered cross product fits comfortably in an `i128`: its
/// magnitude is below `2^63`.
pub proof fn lemma_t_stat_bound(d: Seq<Seq<i128>>, c: int, i: int, j: int)
    requires
        wf_data(d, c),
        0 <= i < c,
        0 <= j < c,
    ensures
        -0x8000_0000_0000_0000 <= t_stat(d, i, j) <= 0x8000_0000_0000_0000,
{
    let n = d.len() as int;
    lemma_col_sum_bound(d, c, i, n);
    lemma_col_sum_bound(d, c, j, n);
    lemma_col_dot_bound(d, c, i, j, n);
    assert(-0x8000_0000_0000_0000 <= n * col_dot(d, i, j) - col_sum(d, i) * col_sum(d, j)
        <= 0x8000_0000_0000_0000) by (nonlinear_arith)
        requires
            0 <= n <= 1024,
            -(n * MAX_RAW * MAX_RAW) <= col_dot(d, i, j) <= n * MAX_RAW * MAX_RAW,
            -(n * MAX_RAW) <= col_sum(d, i) <= n * MAX_RAW,
            -(n * MAX_RAW) <= col_sum(d, j) <= n * MAX_RAW,
            MAX_RAW == 2097152i128;
}

/// Sum of squared deviations `(n * x_k - s)^2` over the first `j` rows
/// of column `i`, for fixed weights `n` and `s`.
pub open spec fn dev_sq_pfx(d: Seq<Seq<i128>>, i: int, n: int, s: int, j: int) -> int
    decreases j,
{
    if j <= 0 {
        0
    } else {
        dev_sq_pfx(d, i, n, s, j - 1) + (n * d[j - 1][i] - s) * (n * d[j - 1][i] - s)
    }
}

/// The squared-deviation sum expands to
/// `n^2 * dot - 2 n s * sum + j * s^2` over the same prefix.
proof fn lemma_dev_sq_expansion(d: Seq<Seq<i128>>, i: int, n: int, s: int, j: int)
    requires
        j >= 0,
    ensures
        dev_sq_pfx(d, i, n, s, j) == n * n * col_dot_pfx(d, i, i, j) - 2 * (n * s) * col_sum_pfx(
            d,
            i,
            j,
        ) + j * (s * s),
    decreases j,
{
    if j <= 0 {
        assert(col_dot_pfx(d, i, i, j) == 0);
        assert(col_sum_pfx(d, i, j) == 0);
        assert(dev_sq_pfx(d, i, n, s, j) == 0);
        assert(n * n * 0 == 0) by (nonlinear_arith);
        assert(2 * (n * s) * 0 == 0) by (nonlinear_arith);
        assert(j * (s * s) == 0) by (nonlinear_arith)
            requires j == 0;
    } else {
        lemma_dev_sq_expansion(d, i, n, s, j - 1);
        let x = d[j - 1][i] as int;
        let a = n * x;
        let q = col_dot_pfx(d, i, i, j - 1);
        let t = col_sum_pfx(d, i, j - 1);
        assert((a - s) * (a - s) == a * a - 2 * (a * s) + s * s) by (nonlinear_arith);
        assert(a * a == n * n * (x * x)) by (nonlinear_arith)
            requires a == n * x;
        assert(a * s == (n * s) * x) by (nonlinear_arith)
            requires a == n * x;
        assert(n * n * (q + x * x) == n * n * q + n * n * (x * x)) by (nonlinear_arith);
        assert(2 * (n * s) * (t + x) == 2 * (n * s) * t + 2 * ((n * s) * x)) by (nonlinear_arith);
        assert((j - 1) * (s * s) + s * s == j * (s * s)) by (nonlinear_arith);
        assert(col_dot_pfx(d, i, i, j) == q + x * x);
        assert(col_sum_pfx(d, i, j) == t + x);
        assert(dev_sq_pfx(d, i, n, s, j) == dev_sq_pfx(d, i, n, s, j - 1) + (a - s) * (a - s));
        assert(n * n * col_dot_pfx(d, i, i, j) == n * n * q + n * n * (x * x));
        assert(2 * (n * s) * col_sum_pfx(d, i, j) == 2 * (n * s) * t + 2 * ((n * s) * x));
        assert(dev_sq_pfx(d, i, n, s, j) == n * n * col_dot_pfx(d, i, i, j) - 2 * (n * s)
            * col_sum_pfx(d, i, j) + j * (s * s));
    }
}

/// A sum of squares is nonnegative.
proof fn lemma_dev_sq_nonneg(d: Seq<Seq<i128>>, i: int, n: int, s: int, j: int)
    ensures
        dev_sq_pfx(d, i, n, s, j) >= 0,
    decreases j,
{
    if j <= 0 {
    } else {
        lemma_dev_sq_nonneg(d, i, n, s, j - 1);
        let x = d[j - 1][i] as int;
        assert((n * x - s) * (n * x - s) >= 0) by (nonlinear_arith);
    }
}

/// Cauchy-Schwarz against the all-ones vector: a column's centered
/// cross product with itself is never negative, so diagonal
/// correlation denominators and variances are well defined.
pub proof fn lemma_t_diag_nonneg(d: Seq<Seq<i128>>, i: int)
    ensures
        t_stat(d, i, i) >= 0,
{
    let n = d.len() as int;
    let s = col_sum(d, i);
    let q = col_dot(d, i, i);
    lemma_dev_sq_expansion(d, i, n, s, n);
    lemma_dev_sq_nonneg(d, i, n, s, n);
    assert(n * n * q - 2 * (n * s) * s + n * (s * s) >= 0);
    assert(2 * (n * s) * s == 2 * (n * (s * s))) by (nonlinear_arith);
    assert(n * n * q - n * (s * s) >= 0);
    assert(n * (n * q - s * s) == n * n * q - n * (s * s)) by (nonlinear_arith);
    if n > 0 {
        assert(n * q - s * s >= 0) by (nonlinear_arith)
            requires n >= 1 && n * (n * q - s * s) >= 0;
    } else {
        assert(s == 0);
    }
}

/// The centered cross product is symmetric in its two columns.
pub proof fn lemma_col_dot_sym(d: Seq<Seq<i128>>, i: int, j: int, k: int)
    ensures
        col_dot_pfx(d, i, j, k) == col_dot_pfx(d, j, i, k),
    decreases k,
{
    if k > 0 {
        lemma_col_dot_sym(d, i, j, k - 1);
    }
}

/// One cell of the data matrix, spoken of through its deep view.
pub fn cell(data: &Vec<Vec<i128>>, k: usize, j: usize) -> (x: i128)
    requires
        k < data.deep_view().len(),
        j < data.deep_view()[k as int].len(),
    ensures
        x == data.deep_view()[k as int][j as int],
{
    proof {
        assert(data.deep_view().len() == data@.len());
        assert(data.deep_view()[k as int] =~= data@[k as int].deep_view());
    }
    data[k][j]
}

/// Number of columns of a data matrix: the width of its first row.
pub open spec fn col_count(d: Seq<Seq<i128>>) -> int {
    if d.len() == 0 {
        0
    } else {
        d[0].len() as int
    }
}

/// Sums of every column of the data matrix.
pub fn column_sums(data: &Vec<Vec<i128>>) -> (sums: Vec<i128>)
    requires
        wf_data(data.deep_view(), col_count(data.deep_view())),
    ensures
        sums.len() == col_count(data.deep_view()),
        forall|j: int| 0 <= j < sums.len() ==> sums[j] == col_sum(data.deep_view(), j),
{
    let d = Ghost(data.deep_view());
    let n_cols: usize = if data.len() == 0 {
        0
    } else {
        data[0].len()
    };
    let n_rows: usize = data.len();
    let mut sums: Vec<i128> = Vec::new();
    let mut j: usize = 0;
    while j < n_cols
        invariant
            d@ == data.deep_view(),
            wf_data(d@, n_cols as int),
            n_rows == d@.len(),
            sums.len() == j,
            j <= n_cols,
            forall|q: int| 0 <= q < j ==> sums[q] == col_sum(d@, q),
        decreases n_cols - j,
    {
        let mut acc: i128 = 0;
        let mut k: usize = 0;
        while k < n_rows
            invariant
                d@ == data.deep_view(),
                wf_data(d@, n_cols as int),
                n_rows == d@.len(),
                0 <= j < n_cols,
                k <= n_rows,
                acc == col_sum_pfx(d@, j as int, k as int),
                -(k * MAX_RAW) <= acc <= k * MAX_RAW,
            decreases n_rows - k,
        {
            proof {
                lemma_col_sum_bound(d@, n_cols as int, j as int, (k + 1) as int);
            }
            acc = acc + cell(data, k, j);
            k = k + 1;
        }
        sums.push(acc);
        j = j + 1;
    }
    sums
}

/// The centered cross product `t_stat` of columns `i` and `j`, given
/// precomputed column sums.
pub fn t_of(data: &Vec<Vec<i128>>, sums: &Vec<i128>, i: usize, j: usize) -> (t: i128)
    requires
        wf_data(data.deep_view(), sums.len() as int),
        i < sums.len(),
        j < sums.len(),
        forall|q: int| 0 <= q < sums.len() ==> sums[q] == col_sum(data.deep_view(), q),
    ensures
        t == t_stat(data.deep_view(), i as int, j as int),
        -0x8000_0000_0000_0000 <= t <= 0x8000_0000_0000_0000,
{
    let d = Ghost(data.deep_view());
    let n_rows: usize = data.len();
    let n_cols: usize = sums.len();
    let mut dot: i128 = 0;
    let mut k: usize = 0;
    while k < n_rows
        invariant
            d@ == data.deep_view(),
            wf_data(d@, n_cols as int),
            n_rows == d@.len(),
            i < n_cols,
            j < n_cols,
            k <= n_rows,
            dot == col_dot_pfx(d@, i as int, j as int, k as int),
            -(k * MAX_RAW * MAX_RAW) <= dot <= k * MAX_RAW * MAX_RAW,
        decreases n_rows - k,
    {
        proof {
            lemma_col_dot_bound(d@, n_cols as int, i as int, j as int, (k + 1) as int);
            let x = d@[k as int][i as int] as int;
            let y = d@[k as int][j as int] as int;
            assert(-(MAX_RAW * MAX_RAW) <= x * y <= MAX_RAW * MAX_RAW) by (nonlinear_arith)
                requires
                    -MAX_RAW <= x <= MAX_RAW && -MAX_RAW <= y <= MAX_RAW && MAX_RAW
                        == 2097152i128;
        }
        dot = dot + cell(data, k, i) * cell(data, k, j);
        k = k + 1;
    }
    proof {
        lemma_t_stat_bound(d@, n_cols as int, i as int, j as int);
        lemma_col_sum_bound(d@, n_cols as int, i as int, n_rows as int);
        lemma_col_sum_bound(d@, n_cols as int, j as int, n_rows as int);
        assert(-0x4000_0000_0000_0000_0000_0000_0000_0000 <= col_sum(d@, i as int) * col_sum(
            d@,
            j as int,
        ) <= 0x4000_0000_0000_0000_0000_0000_0000_0000) by (nonlinear_arith)
            requires
                -(1024 * MAX_RAW) <= col_sum(d@, i as int) <= 1024 * MAX_RAW,
                -(1024 * MAX_RAW) <= col_sum(d@, j as int) <= 1024 * MAX_RAW,
                MAX_RAW == 2097152i128;
        assert(-0x4000_0000_0000_0000_0000_0000_0000_0000 <= (n_rows as int) * dot
            <= 0x4000_0000_0000_0000_0000_0000_0000_0000) by (nonlinear_arith)
            requires
                0 <= n_rows <= 1024,
                -(1024 * MAX_RAW * MAX_RAW) <= dot <= 1024 * MAX_RAW * MAX_RAW,
                MAX_RAW == 2097152i128;
    }
    (n_rows as i128) * dot - sums[i] * sums[j]
}

} // verus!
