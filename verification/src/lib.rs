//! Factor analysis: the verified core of a stock-factor quantile service.
//!
//! The library holds the integer, byte and text logic of the service: calendar
//! dates and trading-day ranges, TBF record extraction, request arguments and
//! their cache keys, configuration defaults, quantile grouping and the
//! integer state machines behind several factors.
pub mod args;
pub mod config;
pub mod date;
pub mod db;
pub mod router;
pub mod stlist;
pub mod text;
pub mod window;

pub use date::Date;
