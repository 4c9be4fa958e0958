use factor_stats::fixed::SCALE;
use factor_stats::matrix::{calculate_matrix, MatrixError, MatrixKind};
use factor_stats::descriptive::calculate_descriptive_statistics;
use factor_stats::results::{calculate_correlation_matrix, calculate_covariance_matrix};
use factor_stats::inverse::calculate_inverse_correlation_matrix;
use factor_stats::anti_image::calculate_anti_image_matrices;

fn scaled(cols: &[&[i64]]) -> Vec<Vec<i128>> {
    // cols[v][k] are plain integers; rows are observations.
    let n = cols[0].len();
    (0..n)
        .map(|k| cols.iter().map(|c| (c[k] as i128) * (SCALE as i128)).collect())
        .collect()
}

fn names(n: usize) -> Vec<String> {
    (0..n).map(|i| format!("v{}", i)).collect()
}

fn as_f(raw: i128) -> f64 {
    raw as f64 / SCALE as f64
}

#[test]
fn correlation_diagonal_is_one_and_cells_in_range() {
    let data = scaled(&[&[1, 2, 3, 4, 5], &[2, 1, 4, 3, 5], &[1, 3, 2, 5, 4]]);
    let m = calculate_matrix(&data, MatrixKind::Correlation).unwrap();
    for i in 0..3 {
        assert_eq!(m[i][i], SCALE);
        for j in 0..3 {
            assert!(-SCALE <= m[i][j] && m[i][j] <= SCALE);
        }
    }
}

#[test]
fn correlation_matrix_is_symmetric() {
    let data = scaled(&[&[1, 2, 3, 4, 5], &[2, 1, 4, 3, 5], &[1, 3, 2, 5, 4]]);
    let m = calculate_matrix(&data, MatrixKind::Correlation).unwrap();
    let c = calculate_matrix(&data, MatrixKind::Covariance).unwrap();
    for i in 0..3 {
        for j in 0..3 {
            assert_eq!(m[i][j], m[j][i]);
            assert_eq!(c[i][j], c[j][i]);
        }
    }
}

#[test]
fn reversed_sequence_has_correlation_minus_one() {
    let data = scaled(&[&[1, 2, 3, 4, 5], &[5, 4, 3, 2, 1]]);
    let m = calculate_matrix(&data, MatrixKind::Correlation).unwrap();
    assert_eq!(m[0][1], -SCALE);
    assert_eq!(m[1][0], -SCALE);
}

#[test]
fn known_correlation_value() {
    // corr([1,2,3,4,5], [2,1,4,3,5]) == 40/50 == 0.8 exactly.
    let data = scaled(&[&[1, 2, 3, 4, 5], &[2, 1, 4, 3, 5]]);
    let m = calculate_matrix(&data, MatrixKind::Correlation).unwrap();
    assert!((as_f(m[0][1]) - 0.8).abs() < 1e-3);
}

#[test]
fn covariance_known_values() {
    // cov([1,2,3,4], [1,2,3,4]) == 5/3; cov([1,2,3,4], [4,3,2,1]) == -5/3.
    let data = scaled(&[&[1, 2, 3, 4], &[4, 3, 2, 1]]);
    let m = calculate_matrix(&data, MatrixKind::Covariance).unwrap();
    assert!((as_f(m[0][0]) - 5.0 / 3.0).abs() < 1e-3);
    assert!((as_f(m[0][1]) + 5.0 / 3.0).abs() < 1e-3);
}

#[test]
fn zero_variance_column_gives_defined_cells() {
    let data = scaled(&[&[3, 3, 3, 3], &[1, 2, 3, 4]]);
    let m = calculate_matrix(&data, MatrixKind::Correlation).unwrap();
    assert_eq!(m[0][0], SCALE);
    assert_eq!(m[0][1], 0);
    assert_eq!(m[1][0], 0);
    assert_eq!(m[1][1], SCALE);
}

#[test]
fn insufficient_data_from_every_entry_point() {
    let data = scaled(&[&[1], &[2], &[3]]);
    let nm = names(3);
    assert_eq!(
        calculate_matrix(&data, MatrixKind::Correlation).unwrap_err(),
        MatrixError::InsufficientData
    );
    assert_eq!(
        calculate_matrix(&data, MatrixKind::Covariance).unwrap_err(),
        MatrixError::InsufficientData
    );
    assert_eq!(
        calculate_correlation_matrix(&data, &nm).unwrap_err(),
        MatrixError::InsufficientData
    );
    assert_eq!(
        calculate_covariance_matrix(&data, &nm).unwrap_err(),
        MatrixError::InsufficientData
    );
    assert_eq!(
        calculate_inverse_correlation_matrix(&data, &nm).unwrap_err(),
        MatrixError::InsufficientData
    );
    assert_eq!(
        calculate_anti_image_matrices(&data, &nm).unwrap_err(),
        MatrixError::InsufficientData
    );
    assert_eq!(
        calculate_descriptive_statistics(&data, &nm).unwrap_err(),
        MatrixError::InsufficientData
    );
}

#[test]
fn dimension_mismatch_when_names_disagree() {
    let data = scaled(&[&[1, 2, 3, 4, 5], &[2, 1, 4, 3, 5]]);
    let nm = names(3);
    assert_eq!(
        calculate_correlation_matrix(&data, &nm).unwrap_err(),
        MatrixError::DimensionMismatch
    );
    assert_eq!(
        calculate_covariance_matrix(&data, &nm).unwrap_err(),
        MatrixError::DimensionMismatch
    );
    assert_eq!(
        calculate_inverse_correlation_matrix(&data, &nm).unwrap_err(),
        MatrixError::DimensionMismatch
    );
    assert_eq!(
        calculate_anti_image_matrices(&data, &nm).unwrap_err(),
        MatrixError::DimensionMismatch
    );
    assert_eq!(
        calculate_descriptive_statistics(&data, &nm).unwrap_err(),
        MatrixError::DimensionMismatch
    );
}

#[test]
fn descriptive_statistics_known_values() {
    let data = scaled(&[&[1, 2, 3, 4]]);
    let nm = names(1);
    let stats = calculate_descriptive_statistics(&data, &nm).unwrap();
    assert_eq!(stats.len(), 1);
    assert_eq!(stats[0].variable, "v0");
    assert_eq!(stats[0].analysis_n, 4);
    assert!((as_f(stats[0].mean) - 2.5).abs() < 1e-3);
    // variance 5/3, std ~ 1.29099
    assert!((as_f(stats[0].std_deviation) - (5.0f64 / 3.0).sqrt()).abs() < 1e-3);
}

#[test]
fn covariance_diagonal_matches_descriptive_variance() {
    let data = scaled(&[&[1, 2, 3, 4, 5], &[2, 1, 4, 3, 5], &[7, 7, 8, 9, 9]]);
    let nm = names(3);
    let cov = calculate_covariance_matrix(&data, &nm).unwrap();
    let stats = calculate_descriptive_statistics(&data, &nm).unwrap();
    for j in 0..3 {
        let var = as_f(cov.correlations[j][j]);
        let std = as_f(stats[j].std_deviation);
        assert!((var.sqrt() - std).abs() < 2e-3);
    }
}

#[test]
fn covariance_converts_to_correlation() {
    let data = scaled(&[&[1, 2, 3, 4, 5], &[2, 1, 4, 3, 5], &[1, 3, 2, 5, 4]]);
    let nm = names(3);
    let cov = calculate_covariance_matrix(&data, &nm).unwrap();
    let cor = calculate_correlation_matrix(&data, &nm).unwrap();
    for i in 0..3 {
        for j in 0..3 {
            let cij = as_f(cov.correlations[i][j]);
            let cii = as_f(cov.correlations[i][i]);
            let cjj = as_f(cov.correlations[j][j]);
            let converted = cij / (cii * cjj).sqrt();
            assert!((converted - as_f(cor.correlations[i][j])).abs() < 1e-2);
        }
    }
}

#[test]
fn assemblers_carry_variable_order() {
    let data = scaled(&[&[1, 2, 3, 4, 5], &[2, 1, 4, 3, 5]]);
    let nm = vec!["alpha".to_string(), "beta".to_string()];
    let cor = calculate_correlation_matrix(&data, &nm).unwrap();
    assert_eq!(cor.variable_order, nm);
    assert_eq!(cor.correlations.len(), 2);
    let cov = calculate_covariance_matrix(&data, &nm).unwrap();
    assert_eq!(cov.variable_order, nm);
}

#[test]
fn inverse_of_two_variable_correlation() {
    // corr = [[1, 0.8], [0.8, 1]]; inverse ~ [[2.78, -2.22], [-2.22, 2.78]].
    let data = scaled(&[&[1, 2, 3, 4, 5], &[2, 1, 4, 3, 5]]);
    let nm = names(2);
    let inv = calculate_inverse_correlation_matrix(&data, &nm).unwrap();
    let a = &inv.inverse_correlations;
    assert!((as_f(a[0][0]) - 2.7778).abs() < 0.05);
    assert!((as_f(a[0][1]) + 2.2222).abs() < 0.05);
    assert_eq!(inv.variable_order, nm);
}

#[test]
fn inverse_product_is_identity_in_both_orders() {
    let data = scaled(&[&[1, 2, 3, 4, 5], &[2, 1, 4, 3, 5], &[1, 3, 2, 5, 4]]);
    let nm = names(3);
    let cor = calculate_correlation_matrix(&data, &nm).unwrap();
    let inv = calculate_inverse_correlation_matrix(&data, &nm).unwrap();
    let r = &cor.correlations;
    let a = &inv.inverse_correlations;
    let tol = 64.0 / SCALE as f64;
    for i in 0..3 {
        for j in 0..3 {
            let target = if i == j { 1.0 } else { 0.0 };
            let ra: f64 = (0..3).map(|k| as_f(r[i][k]) * as_f(a[k][j])).sum();
            let ar: f64 = (0..3).map(|k| as_f(a[i][k]) * as_f(r[k][j])).sum();
            assert!((ra - target).abs() <= tol + 1e-3);
            assert!((ar - target).abs() <= tol + 1e-3);
        }
    }
}

#[test]
fn collinear_pair_is_singular() {
    // Third variable is exactly twice the first.
    let data = scaled(&[&[1, 2, 3, 4, 5], &[2, 1, 4, 3, 5], &[2, 4, 6, 8, 10]]);
    let nm = names(3);
    let cor = calculate_correlation_matrix(&data, &nm).unwrap();
    assert_eq!(cor.correlations[0][2], SCALE);
    assert_eq!(
        calculate_inverse_correlation_matrix(&data, &nm).unwrap_err(),
        MatrixError::SingularMatrix
    );
    assert_eq!(
        calculate_anti_image_matrices(&data, &nm).unwrap_err(),
        MatrixError::SingularMatrix
    );
}

#[test]
fn anti_image_correlation_diagonal_is_one() {
    let data = scaled(&[&[1, 2, 3, 4, 5], &[2, 1, 4, 3, 5], &[1, 3, 2, 5, 4]]);
    let nm = names(3);
    let am = calculate_anti_image_matrices(&data, &nm).unwrap();
    for i in 0..3 {
        assert_eq!(am.anti_image_correlation[i][i], SCALE);
    }
    assert_eq!(am.variable_order, nm);
    assert_eq!(am.anti_image_covariance.len(), 3);
}
