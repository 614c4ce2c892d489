//! Least-squares trend of one-way packet delay over a window of samples.
pub mod sums;
pub mod trendline_estimator;
pub mod laws;
