//! Mean closing price over a trailing window.
use vstd::prelude::*;

use crate::args::UntArg;

verus! {

/// Parameters of the price-mean factor.
#[derive(Debug)]
pub struct Core {
    /// Window length in trading days.
    pub period: UntArg,
}

impl Core {
    pub fn new(period: usize) -> (r: Core)
        ensures
            r.period.name@ == "均值窗口"@,
            r.period.value == period,
    {
        Core { period: UntArg::new("均值窗口", period) }
    }
}

} // verus!
