//! Momentum factors.
pub mod price_mean_n;
pub mod pvt_n;
pub mod trix_n;
