//! Williams variable accumulation/distribution factors.
use vstd::prelude::*;

use crate::args::UntArg;

verus! {

/// WVAD variant.
#[derive(Clone, Copy, Debug, PartialEq, Eq, Structural)]
pub enum WvadKind {
    /// Six-day mean of WVAD.
    Wvad6,
    /// Twenty-day WVAD sum.
    Wvad20,
    /// Twenty-four-day WVAD sum.
    Williams,
}

impl WvadKind {
    /// Display name of the variant.
    pub fn label(self) -> (r: &'static str)
        ensures
            r@ == match self {
            Self::Wvad6 => "WVAD6 日均值"@,
            Self::Wvad20 => "20 日资金流量"@,
            Self::Williams => "威廉变异离散量"@,
            },
    {
        match self {
            Self::Wvad6 => "WVAD6 日均值",
            Self::Wvad20 => "20 日资金流量",
            Self::Williams => "威廉变异离散量",
        }
    }

    /// Window length of the variant in trading days.
    pub fn window(self) -> (r: usize)
        ensures
            r == match self {
            Self::Wvad6 => 6usize,
            Self::Wvad20 => 20usize,
            Self::Williams => 24usize,
            },
    {
        match self {
            Self::Wvad6 => 6,
            Self::Wvad20 => 20,
            Self::Williams => 24,
        }
    }
}

/// Parameters of the WVAD factor.
#[derive(Debug)]
pub struct Core {
    /// Window length in trading days.
    pub period: UntArg,
    /// Which variant of the factor.
    pub kind: WvadKind,
}

impl Core {
    pub fn new(period: usize, kind: WvadKind) -> (r: Core)
        ensures
            r.period.name@ == "WVAD 周期"@,
            r.period.value == period,
            r.kind == kind,
    {
        Core { period: UntArg::new("WVAD 周期", period), kind }
    }
}

} // verus!
