//! Anti-image covariance and correlation matrices, derived from the
//! inverse of the correlation matrix.

use vstd::prelude::*;
use crate::fixed::{SCALE, SAFE, tdiv_any, sqf, sdiv, isqrt};
use crate::sums::{cell, wf_data, col_count};
use crate::matrix::MatrixError;
use crate::inverse::{
    certified_inverse, corr_matrix, is_approx_inverse, gj_certifies, sq_shape, entries_within,
};

verus! {

/// Anti-image covariance cell from the inverse `a`: `1 / a_ii` on the
/// diagonal, `-a_ij / (a_ii * a_jj)` elsewhere, as raw scalars.  A
/// zero divisor (impossible for a certified inverse of a real
/// correlation matrix) yields zero rather than an undefined value.
pub open spec fn anti_cov_cell(a: Seq<Seq<i128>>, i: int, j: int) -> int {
    if i == j {
        if a[i][i] != 0 {
            tdiv_any(SCALE * SCALE, a[i][i] as int)
        } else {
            0
        }
    } else {
        let den = a[i][i] * a[j][j];
        if den != 0 {
            tdiv_any(-(SCALE * SCALE) * a[i][j], den)
        } else {
            0
        }
    }
}

/// Anti-image correlation cell from the inverse `a`: exactly `1.0` on
/// the diagonal, `-a_ij / sqrt(a_ii * a_jj)` elsewhere.  A
/// nonpositive product under the root yields zero.
pub open spec fn anti_corr_cell(a: Seq<Seq<i128>>, i: int, j: int) -> int {
    if i == j {
        SCALE as int
    } else {
        let p = a[i][i] * a[j][j];
        if p > 0 {
            tdiv_any(-SCALE * a[i][j], sqf(p))
        } else {
            0
        }
    }
}

/// The anti-image correlation diagonal is exactly `1.0`.
pub proof fn lemma_anti_image_correlation_diagonal(a: Seq<Seq<i128>>, i: int)
    ensures
        anti_corr_cell(a, i, i) == SCALE,
{
}

/// The two anti-image matrices with their variable ordering.
#[derive(Debug)]
pub struct AntiImageMatrices {
    pub anti_image_covariance: Vec<Vec<i128>>,
    pub anti_image_correlation: Vec<Vec<i128>>,
    pub variable_order: Vec<String>,
}

/// Both anti-image matrices are built cell by cell from one certified
/// approximate inverse of the data's correlation matrix.
pub open spec fn anti_image_of(am: AntiImageMatrices, a: Seq<Seq<i128>>, c: int) -> bool {
    &&& sq_shape(am.anti_image_covariance.deep_view(), c, c)
    &&& sq_shape(am.anti_image_correlation.deep_view(), c, c)
    &&& forall|i: int, j: int|
        0 <= i < c && 0 <= j < c ==> #[trigger] am.anti_image_covariance.deep_view()[i][j]
            == anti_cov_cell(a, i, j)
    &&& forall|i: int, j: int|
        0 <= i < c && 0 <= j < c ==> #[trigger] am.anti_image_correlation.deep_view()[i][j]
            == anti_corr_cell(a, i, j)
}

/// The result was built, cell by cell, from some certified
/// approximate inverse of the data's correlation matrix.
pub open spec fn anti_image_result_ok(am: AntiImageMatrices, d: Seq<Seq<i128>>) -> bool {
    exists|a: Seq<Seq<i128>>|
        is_approx_inverse(corr_matrix(d, col_count(d)), a, col_count(d)) && anti_image_of(
            am,
            a,
            col_count(d),
        )
}

/// Derive the anti-image covariance and correlation matrices.
///
/// Succeeds exactly when `calculate_inverse_correlation_matrix` does
/// (`gj_certifies` holds of the correlation matrix), and then both
/// matrices are computed cell by cell from a certified approximate
/// inverse of the correlation matrix; otherwise it fails the same
/// way.
pub fn calculate_anti_image_matrices(data: &Vec<Vec<i128>>, names: &Vec<String>) -> (r: Result<
    AntiImageMatrices,
    MatrixError,
>)
    requires
        wf_data(data.deep_view(), col_count(data.deep_view())),
    ensures
        (r == Err::<AntiImageMatrices, MatrixError>(MatrixError::InsufficientData)) <==> data
            .deep_view().len() < 2,
        (r == Err::<AntiImageMatrices, MatrixError>(MatrixError::DimensionMismatch)) <==> (data
            .deep_view().len() >= 2 && names@.len() != col_count(data.deep_view())),
        r is Ok <==> (data.deep_view().len() >= 2 && names@.len() == col_count(data.deep_view())
            && gj_certifies(
            corr_matrix(data.deep_view(), col_count(data.deep_view())),
            col_count(data.deep_view()),
        )),
        r matches Ok(am) ==> {
            &&& data.deep_view().len() >= 2
            &&& names@.len() == col_count(data.deep_view())
            &&& am.variable_order.deep_view() == names.deep_view()
            &&& anti_image_result_ok(am, data.deep_view())
        },
        r == Err::<AntiImageMatrices, MatrixError>(MatrixError::SingularMatrix) ==> data
            .deep_view().len() >= 2 && names@.len() == col_count(data.deep_view()),
{
    let d = Ghost(data.deep_view());
    let inv = match certified_inverse(data, names) {
        Ok(a) => a,
        Err(e) => {
            return Err(e);
        },
    };
    let ghost c_spec = col_count(d@);
    let c: usize = inv.len();
    proof {
        assert(inv.deep_view().len() == inv@.len());
        assert(c == c_spec);
    }
    let mut cov: Vec<Vec<i128>> = Vec::new();
    let mut cor: Vec<Vec<i128>> = Vec::new();
    let mut i: usize = 0;
    while i < c
        invariant
            c == inv.len(),
            c <= 1024,
            sq_shape(inv.deep_view(), c as int, c as int),
            entries_within(inv.deep_view(), SAFE as int),
            i <= c,
            cov.len() == i,
            cor.len() == i,
            forall|p: int| 0 <= p < i ==> (#[trigger] cov@[p])@.len() == c,
            forall|p: int| 0 <= p < i ==> (#[trigger] cor@[p])@.len() == c,
            forall|p: int, q: int|
                0 <= p < i && 0 <= q < c ==> #[trigger] cov@[p]@[q] == anti_cov_cell(
                    inv.deep_view(),
                    p,
                    q,
                ),
            forall|p: int, q: int|
                0 <= p < i && 0 <= q < c ==> #[trigger] cor@[p]@[q] == anti_corr_cell(
                    inv.deep_view(),
                    p,
                    q,
                ),
        decreases c - i,
    {
        let mut cov_row: Vec<i128> = Vec::new();
        let mut cor_row: Vec<i128> = Vec::new();
        let mut j: usize = 0;
        while j < c
            invariant
                c == inv.len(),
                c <= 1024,
                sq_shape(inv.deep_view(), c as int, c as int),
                entries_within(inv.deep_view(), SAFE as int),
                i < c,
                j <= c,
                cov_row.len() == j,
                cor_row.len() == j,
                forall|q: int|
                    0 <= q < j ==> #[trigger] cov_row@[q] == anti_cov_cell(inv.deep_view(), i as int, q),
                forall|q: int|
                    0 <= q < j ==> #[trigger] cor_row@[q] == anti_corr_cell(inv.deep_view(), i as int, q),
            decreases c - j,
        {
            let aii = cell(&inv, i, i);
            let ajj = cell(&inv, j, j);
            let aij = cell(&inv, i, j);
            if i == j {
                let cv: i128 = if aii != 0 {
                    sdiv(SCALE * SCALE, aii)
                } else {
                    0
                };
                cov_row.push(cv);
                cor_row.push(SCALE);
            } else {
                proof {
                    assert(-0x4000_0000_0000_0000_0000_0000_0000_0000 <= (aii as int) * (
                    ajj as int) <= 0x4000_0000_0000_0000_0000_0000_0000_0000) by (nonlinear_arith)
                        requires
                            -SAFE <= aii <= SAFE && -SAFE <= ajj <= SAFE && SAFE
                                == 0x800_0000_0000_0000i128;
                }
                let den: i128 = aii * ajj;
                let cv: i128 = if den != 0 {
                    sdiv(-(SCALE * SCALE) * aij, den)
                } else {
                    0
                };
                cov_row.push(cv);
                let cr: i128 = if den > 0 {
                    let dd = isqrt(den);
                    proof {
                        assert(dd <= den) by (nonlinear_arith)
                            requires dd >= 0 && den > 0 && (dd as int) * (dd as int) <= den;
                        assert(dd >= 1) by (nonlinear_arith)
                            requires
                                den > 0 && dd >= 0 && (den as int) < ((dd as int) + 1) * ((
                                dd as int) + 1);
                    }
                    sdiv(-SCALE * aij, dd)
                } else {
                    0
                };
                cor_row.push(cr);
            }
            j = j + 1;
        }
        cov.push(cov_row);
        cor.push(cor_row);
        i = i + 1;
    }
    let order = names.clone();
    proof {
        assert(order.deep_view() =~= names.deep_view());
    }
    let am = AntiImageMatrices {
        anti_image_covariance: cov,
        anti_image_correlation: cor,
        variable_order: order,
    };
    proof {
        assert forall|p: int| 0 <= p < c implies (#[trigger] am.anti_image_covariance.deep_view()[
        p]).len() == c && (am.anti_image_correlation.deep_view()[p]).len() == c by {
            assert(am.anti_image_covariance.deep_view()[p] =~= am.anti_image_covariance@[p].deep_view());
            assert(am.anti_image_correlation.deep_view()[p] =~= am.anti_image_correlation@[p].deep_view());
        }
        assert forall|p: int, q: int| 0 <= p < c && 0 <= q < c implies #[trigger] am
            .anti_image_covariance.deep_view()[p][q] == anti_cov_cell(inv.deep_view(), p, q)
            && #[trigger] am.anti_image_correlation.deep_view()[p][q] == anti_corr_cell(
            inv.deep_view(),
            p,
            q,
        ) by {
            assert(am.anti_image_covariance.deep_view()[p] =~= am.anti_image_covariance@[p].deep_view());
            assert(am.anti_image_correlation.deep_view()[p] =~= am.anti_image_correlation@[p].deep_view());
        }
        assert(anti_image_of(am, inv.deep_view(), c_spec));
        assert(d@ == data.deep_view());
        assert(c_spec == col_count(data.deep_view()));
        assert(am.variable_order.deep_view() == names.deep_view());
        assert(anti_image_result_ok(am, data.deep_view())) by {
            assert(is_approx_inverse(
                corr_matrix(data.deep_view(), col_count(data.deep_view())),
                inv.deep_view(),
                col_count(data.deep_view()),
            ) && anti_image_of(am, inv.deep_view(), col_count(data.deep_view())));
        }
    }
    Ok(am)
}

} // verus!
