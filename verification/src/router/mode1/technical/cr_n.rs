//! CR energy indicator.
use vstd::prelude::*;

use crate::args::UntArg;

verus! {

/// Parameters of the CR factor.
#[derive(Debug)]
pub struct Core {
    /// Window length in trading days.
    pub period: UntArg,
}

impl Core {
    pub fn new(period: usize) -> (r: Core)
        ensures
            r.period.name@ == "CR 周期"@,
            r.period.value == period,
    {
        Core { period: UntArg::new("CR 周期", period) }
    }
}

} // verus!
