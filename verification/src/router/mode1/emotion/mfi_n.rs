//! Money flow index over a trailing window.
use vstd::prelude::*;

use crate::args::UntArg;

verus! {

/// Parameters of the money-flow-index factor.
#[derive(Debug)]
pub struct Core {
    /// Window length in trading days.
    pub period: UntArg,
}

impl Core {
    pub fn new(period: usize) -> (r: Core)
        ensures
            r.period.name@ == "MFI 周期"@,
            r.period.value == period,
    {
        Core { period: UntArg::new("MFI 周期", period) }
    }
}

} // verus!
