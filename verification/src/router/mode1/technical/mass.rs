//! Mass index with its signal line.
use vstd::prelude::*;

use crate::args::UntArg;

verus! {

/// Periods of the mass index.
#[derive(Debug)]
pub struct Core {
    pub n1: UntArg,
    pub n2: UntArg,
    pub m: UntArg,
}

impl Core {
    pub fn new(n1: usize, n2: usize, m: usize) -> (r: Core)
        requires
            n1 >= 2,
            n2 >= 2,
            m >= 2,
        ensures
            r.n1.name@ == "N1周期"@ && r.n1.value == n1,
            r.n2.name@ == "N2周期"@ && r.n2.value == n2,
            r.m.name@ == "M周期"@ && r.m.value == m,
    {
        Core { n1: UntArg::new("N1周期", n1), n2: UntArg::new("N2周期", n2), m: UntArg::new("M周期", m) }
    }
}

impl Default for Core {
    /// The default periods 9, 25 and 6 days.
    fn default() -> (r: Core)
        ensures
            r.n1.name@ == "N1周期"@ && r.n1.value == 9,
            r.n2.name@ == "N2周期"@ && r.n2.value == 25,
            r.m.name@ == "M周期"@ && r.m.value == 6,
    {
        Core::new(9, 25, 6)
    }
}

} // verus!
