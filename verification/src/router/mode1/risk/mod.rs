//! Risk factors.
pub mod atr_n;
pub mod return_stat_n;
