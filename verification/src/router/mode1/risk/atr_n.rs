//! Average true range over a trailing window.
use vstd::prelude::*;

use crate::args::UntArg;

verus! {

/// Parameters of the average-true-range factor.
#[derive(Debug)]
pub struct Core {
    /// Window length in trading days.
    pub period: UntArg,
}

impl Core {
    pub fn new(period: usize) -> (r: Core)
        ensures
            r.period.name@ == "ATR平滑周期"@,
            r.period.value == period,
    {
        Core { period: UntArg::new("ATR平滑周期", period) }
    }
}

} // verus!
