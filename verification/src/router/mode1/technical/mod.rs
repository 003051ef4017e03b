//! Technical-indicator factors.
pub mod arbr;
pub mod aroon;
pub mod bbi;
pub mod bias_n;
pub mod bollinger;
pub mod cr_n;
pub mod macd;
pub mod mass;
pub mod psy_n;
