//! Ratio of short-window to long-window turnover.
use vstd::prelude::*;

use crate::args::UntArg;

verus! {

/// Parameters of the turnover-ratio factor.
#[derive(Debug)]
pub struct Core {
    /// Window length in trading days.
    pub period: UntArg,
}

impl Core {
    pub fn new(period: usize) -> (r: Core)
        ensures
            r.period.name@ == "短周期"@,
            r.period.value == period,
    {
        Core { period: UntArg::new("短周期", period) }
    }
}

} // verus!
