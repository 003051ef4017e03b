//! Popularity (AR) and willingness (BR) indicators.
use vstd::prelude::*;

use crate::args::UntArg;

verus! {

/// AR/BR variant.
#[derive(Clone, Copy, Debug, PartialEq, Eq, Structural)]
pub enum ArbrKind {
    /// Popularity indicator AR.
    Ar,
    /// Willingness indicator BR.
    Br,
    /// AR combined with BR.
    Arbr,
}

impl ArbrKind {
    /// Display name of the variant.
    pub fn label(self) -> (r: &'static str)
        ensures
            r@ == match self {
            Self::Ar => "人气指标(AR)"@,
            Self::Br => "意愿指标(BR)"@,
            Self::Arbr => "ARBR"@,
            },
    {
        match self {
            Self::Ar => "人气指标(AR)",
            Self::Br => "意愿指标(BR)",
            Self::Arbr => "ARBR",
        }
    }
}

/// Parameters of the AR/BR factor.
#[derive(Debug)]
pub struct Core {
    /// Window length in trading days.
    pub period: UntArg,
    /// Which variant of the factor.
    pub kind: ArbrKind,
}

impl Core {
    pub fn new(period: usize, kind: ArbrKind) -> (r: Core)
        ensures
            r.period.name@ == "统计周期"@,
            r.period.value == period,
            r.kind == kind,
    {
        Core { period: UntArg::new("统计周期", period), kind }
    }
}

} // verus!
