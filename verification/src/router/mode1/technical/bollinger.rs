//! Bollinger bands.
use vstd::prelude::*;

use crate::args::UntArg;

verus! {

/// Bollinger band.
#[derive(Clone, Copy, Debug, PartialEq, Eq, Structural)]
pub enum Band {
    /// Upper band: mean plus two standard deviations.
    Upper,
    /// Lower band: mean minus two standard deviations.
    Lower,
}

impl Band {
    /// Display name of the variant.
    pub fn label(self) -> (r: &'static str)
        ensures
            r@ == match self {
            Self::Upper => "上轨"@,
            Self::Lower => "下轨"@,
            },
    {
        match self {
            Self::Upper => "上轨",
            Self::Lower => "下轨",
        }
    }
}

/// Parameters of the Bollinger factor.
#[derive(Debug)]
pub struct Core {
    /// Window length in trading days.
    pub period: UntArg,
    /// Which variant of the factor.
    pub band: Band,
}

impl Core {
    pub fn new(period: usize, band: Band) -> (r: Core)
        ensures
            r.period.name@ == "布林带周期"@,
            r.period.value == period,
            r.band == band,
    {
        Core { period: UntArg::new("布林带周期", period), band }
    }
}

} // verus!
