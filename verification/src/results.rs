//! Named results: the correlation / covariance matrix together with
//! the variable ordering it was built from.
//!
//! Results are positional: `correlations[i][j]` belongs to the pair
//! `(variable_order[i], variable_order[j])`.  Significance values
//! (p-values) require transcendental functions and live with the
//! floating-point layer around this library.

use vstd::prelude::*;
use crate::sums::{wf_data, col_count};
use crate::matrix::{MatrixKind, MatrixError, calculate_matrix, is_computed_matrix};

verus! {

/// A square matrix of pairwise statistics, keyed by position in
/// `variable_order`.
#[derive(Debug)]
pub struct CorrelationMatrix {
    pub correlations: Vec<Vec<i128>>,
    pub variable_order: Vec<String>,
}

/// Shared assembler for the two matrix kinds.
fn assemble(data: &Vec<Vec<i128>>, names: &Vec<String>, kind: MatrixKind) -> (r: Result<
    CorrelationMatrix,
    MatrixError,
>)
    requires
        wf_data(data.deep_view(), col_count(data.deep_view())),
    ensures
        r is Err <==> (data.deep_view().len() < 2 || names@.len() != col_count(data.deep_view())),
        r matches Err(e) ==> (e == MatrixError::InsufficientData <==> data.deep_view().len() < 2),
        r matches Err(e) ==> (e == MatrixError::DimensionMismatch <==> (data.deep_view().len() >= 2
            && names@.len() != col_count(data.deep_view()))),
        r matches Ok(cm) ==> {
            &&& is_computed_matrix(
                cm.correlations.deep_view(),
                data.deep_view(),
                kind,
                col_count(data.deep_view()),
            )
            &&& cm.variable_order.deep_view() == names.deep_view()
        },
{
    let m = match calculate_matrix(data, kind) {
        Ok(m) => m,
        Err(e) => {
            return Err(e);
        },
    };
    if names.len() != m.len() {
        return Err(MatrixError::DimensionMismatch);
    }
    let order = names.clone();
    proof {
        assert(order.deep_view() =~= names.deep_view());
    }
    Ok(CorrelationMatrix { correlations: m, variable_order: order })
}

/// The Pearson correlation matrix of the data, with its variable
/// ordering.
pub fn calculate_correlation_matrix(data: &Vec<Vec<i128>>, names: &Vec<String>) -> (r: Result<
    CorrelationMatrix,
    MatrixError,
>)
    requires
        wf_data(data.deep_view(), col_count(data.deep_view())),
    ensures
        r is Err <==> (data.deep_view().len() < 2 || names@.len() != col_count(data.deep_view())),
        r matches Err(e) ==> (e == MatrixError::InsufficientData <==> data.deep_view().len() < 2),
        r matches Err(e) ==> (e == MatrixError::DimensionMismatch <==> (data.deep_view().len() >= 2
            && names@.len() != col_count(data.deep_view()))),
        r matches Ok(cm) ==> {
            &&& is_computed_matrix(
                cm.correlations.deep_view(),
                data.deep_view(),
                MatrixKind::Correlation,
                col_count(data.deep_view()),
            )
            &&& cm.variable_order.deep_view() == names.deep_view()
        },
{
    assemble(data, names, MatrixKind::Correlation)
}

/// The sample covariance matrix of the data, with its variable
/// ordering.
pub fn calculate_covariance_matrix(data: &Vec<Vec<i128>>, names: &Vec<String>) -> (r: Result<
    CorrelationMatrix,
    MatrixError,
>)
    requires
        wf_data(data.deep_view(), col_count(data.deep_view())),
    ensures
        r is Err <==> (data.deep_view().len() < 2 || names@.len() != col_count(data.deep_view())),
        r matches Err(e) ==> (e == MatrixError::InsufficientData <==> data.deep_view().len() < 2),
        r matches Err(e) ==> (e == MatrixError::DimensionMismatch <==> (data.deep_view().len() >= 2
            && names@.len() != col_count(data.deep_view()))),
        r matches Ok(cm) ==> {
            &&& is_computed_matrix(
                cm.correlations.deep_view(),
                data.deep_view(),
                MatrixKind::Covariance,
                col_count(data.deep_view()),
            )
            &&& cm.variable_order.deep_view() == names.deep_view()
        },
{
    assemble(data, names, MatrixKind::Covariance)
}

} // verus!
