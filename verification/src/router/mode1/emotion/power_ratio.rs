//! Bull and bear power ratios.
use vstd::prelude::*;

verus! {

/// Power variant.
#[derive(Clone, Copy, Debug, PartialEq, Eq, Structural)]
pub enum PowerKind {
    /// Bull power.
    Bull,
    /// Bear power.
    Bear,
}

impl PowerKind {
    /// Display name of the variant.
    pub fn label(self) -> (r: &'static str)
        ensures
            r@ == match self {
            Self::Bull => "多头力道"@,
            Self::Bear => "空头力道"@,
            },
    {
        match self {
            Self::Bull => "多头力道",
            Self::Bear => "空头力道",
        }
    }
}

/// Parameters of the factor.
#[derive(Debug)]
pub struct Core {
    /// Which variant of the factor.
    pub kind: PowerKind,
}

impl Core {
    pub fn new(kind: PowerKind) -> (r: Core)
        ensures
            r.kind == kind,
    {
        Core { kind }
    }
}

} // verus!
