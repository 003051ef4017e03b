//! Volume MACD intermediate lines.
use vstd::prelude::*;

verus! {

/// VMACD line.
#[derive(Clone, Copy, Debug, PartialEq, Eq, Structural)]
pub enum VmacdKind {
    /// DIF: difference of the 12- and 26-day volume EMAs.
    Diff,
    /// DEA: nine-day EMA of DIF.
    Dea,
}

impl VmacdKind {
    /// Display name of the variant.
    pub fn label(self) -> (r: &'static str)
        ensures
            r@ == match self {
            Self::Diff => "VMACD diff"@,
            Self::Dea => "VMACD dea"@,
            },
    {
        match self {
            Self::Diff => "VMACD diff",
            Self::Dea => "VMACD dea",
        }
    }
}

/// Parameters of the factor.
#[derive(Debug)]
pub struct Core {
    /// Which variant of the factor.
    pub kind: VmacdKind,
}

impl Core {
    pub fn new(kind: VmacdKind) -> (r: Core)
        ensures
            r.kind == kind,
    {
        Core { kind }
    }
}

} // verus!
