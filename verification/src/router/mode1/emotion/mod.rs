//! Sentiment factors.
pub mod mfi_n;
pub mod power_ratio;
pub mod turnover_rate_n;
pub mod turnover_ratio_n;
pub mod vmacd;
pub mod volume_stat;
pub mod wvad;
