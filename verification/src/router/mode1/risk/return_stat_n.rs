//! Variance, skewness and kurtosis of daily returns over a trailing window.
use vstd::prelude::*;

use crate::args::UntArg;

verus! {

/// Statistic of the returns in the window.
#[derive(Clone, Copy, Debug, PartialEq, Eq, Structural)]
pub enum StatKind {
    /// Variance of returns.
    Variance,
    /// Skewness of returns.
    Skewness,
    /// Excess kurtosis of returns.
    Kurtosis,
}

impl StatKind {
    /// Display name of the variant.
    pub fn label(self) -> (r: &'static str)
        ensures
            r@ == match self {
            Self::Variance => "方差"@,
            Self::Skewness => "偏度"@,
            Self::Kurtosis => "峰度"@,
            },
    {
        match self {
            Self::Variance => "方差",
            Self::Skewness => "偏度",
            Self::Kurtosis => "峰度",
        }
    }
}

/// Parameters of the return-statistics factor.
#[derive(Debug)]
pub struct Core {
    /// Window length in trading days.
    pub period: UntArg,
    /// Which variant of the factor.
    pub kind: StatKind,
}

impl Core {
    pub fn new(period: usize, kind: StatKind) -> (r: Core)
        ensures
            r.period.name@ == "统计窗口"@,
            r.period.value == period,
            r.kind == kind,
    {
        Core { period: UntArg::new("统计窗口", period), kind }
    }
}

} // verus!
