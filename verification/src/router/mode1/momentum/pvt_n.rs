//! Price-volume trend summed over a trailing window.
use vstd::prelude::*;

use crate::args::UntArg;

verus! {

/// Parameters of the multi-day price-volume-trend factor.
#[derive(Debug)]
pub struct Core {
    /// Window length in trading days.
    pub period: UntArg,
}

impl Core {
    pub fn new(period: usize) -> (r: Core)
        requires
            period >= 2,
        ensures
            r.period.name@ == "多日周期"@,
            r.period.value == period,
    {
        Core { period: UntArg::new("多日周期", period) }
    }
}

} // verus!
