//! Volume statistics: rate of change, oscillator, standard deviations and tvma6.
use vstd::prelude::*;

use crate::args::UntArg;

verus! {

/// Volume statistic.
#[derive(Clone, Copy, Debug, PartialEq, Eq, Structural)]
pub enum VolStatKind {
    /// Six-day volume rate of change.
    Roc6,
    /// Twelve-day volume rate of change.
    Roc12,
    /// Volume oscillator.
    Osc,
    /// Ten-day volume standard deviation.
    StdVol10,
    /// Twenty-day volume standard deviation.
    StdVol20,
    /// Six-day turnover-amount standard deviation.
    StdAmt6,
    /// Twenty-day turnover-amount standard deviation.
    StdAmt20,
    /// Six-day mean of volume times close.
    Tvma6,
}

impl VolStatKind {
    /// Display name of the variant.
    pub fn label(self) -> (r: &'static str)
        ensures
            r@ == match self {
            Self::Roc6 => "6 日量变动速率"@,
            Self::Roc12 => "12 日量变动速率"@,
            Self::Osc => "成交量震荡"@,
            Self::StdVol10 => "10 日成交量标准差"@,
            Self::StdVol20 => "20 日成交量标准差"@,
            Self::StdAmt6 => "6 日成交金额标准差"@,
            Self::StdAmt20 => "20 日成交金额标准差"@,
            Self::Tvma6 => "tvma6"@,
            },
    {
        match self {
            Self::Roc6 => "6 日量变动速率",
            Self::Roc12 => "12 日量变动速率",
            Self::Osc => "成交量震荡",
            Self::StdVol10 => "10 日成交量标准差",
            Self::StdVol20 => "20 日成交量标准差",
            Self::StdAmt6 => "6 日成交金额标准差",
            Self::StdAmt20 => "20 日成交金额标准差",
            Self::Tvma6 => "tvma6",
        }
    }

    /// Window length of the variant in trading days.
    pub fn window(self) -> (r: usize)
        ensures
            r == match self {
            Self::Roc6 => 6usize,
            Self::Roc12 => 12usize,
            Self::Osc => 20usize,
            Self::StdVol10 => 10usize,
            Self::StdVol20 => 20usize,
            Self::StdAmt6 => 6usize,
            Self::StdAmt20 => 20usize,
            Self::Tvma6 => 6usize,
            },
    {
        match self {
            Self::Roc6 => 6,
            Self::Roc12 => 12,
            Self::Osc => 20,
            Self::StdVol10 => 10,
            Self::StdVol20 => 20,
            Self::StdAmt6 => 6,
            Self::StdAmt20 => 20,
            Self::Tvma6 => 6,
        }
    }
}

impl VolStatKind {
    /// Trading days a one-day detail query feeds before its target day: the
    /// rates of change need only the previous day, the other statistics a
    /// whole window.
    pub fn detail_warmup(self) -> (r: usize)
        ensures
            r == match self {
                Self::Roc6 | Self::Roc12 => 2usize,
                Self::StdAmt6 | Self::Tvma6 => 6usize,
                Self::StdVol10 => 10usize,
                Self::Osc | Self::StdVol20 | Self::StdAmt20 => 20usize,
            },
    {
        match self {
            Self::Roc6 | Self::Roc12 => 2,
            _ => self.window(),
        }
    }
}

/// Parameters of the volume-statistics factor.
#[derive(Debug)]
pub struct Core {
    /// Window length in trading days.
    pub period: UntArg,
    /// Which variant of the factor.
    pub kind: VolStatKind,
}

impl Core {
    pub fn new(period: usize, kind: VolStatKind) -> (r: Core)
        ensures
            r.period.name@ == "统计周期"@,
            r.period.value == period,
            r.kind == kind,
    {
        Core { period: UntArg::new("统计周期", period), kind }
    }
}

} // verus!
