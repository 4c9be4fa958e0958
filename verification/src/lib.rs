//! Verified fixed-point statistics for a factor-analysis pipeline:
//! correlation and covariance matrices, descriptive statistics, the
//! inverse of the correlation matrix, and anti-image matrices.

pub mod fixed;
pub mod sums;
pub mod matrix;
pub mod descriptive;
pub mod results;
pub mod inverse;
pub mod anti_image;
