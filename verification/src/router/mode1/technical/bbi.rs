//! Bull and bear index: the mean of four simple moving averages.
use vstd::prelude::*;

use crate::args::UntArg;

verus! {

/// Periods of the four moving averages.
#[derive(Debug)]
pub struct Core {
    pub n1: UntArg,
    pub n2: UntArg,
    pub n3: UntArg,
    pub n4: UntArg,
}

impl Core {
    pub fn new(n1: usize, n2: usize, n3: usize, n4: usize) -> (r: Core)
        requires
            n1 >= 2,
            n2 >= 2,
            n3 >= 2,
            n4 >= 2,
        ensures
            r.n1.name@ == "N1周期"@ && r.n1.value == n1,
            r.n2.name@ == "N2周期"@ && r.n2.value == n2,
            r.n3.name@ == "N3周期"@ && r.n3.value == n3,
            r.n4.name@ == "N4周期"@ && r.n4.value == n4,
    {
        Core {
            n1: UntArg::new("N1周期", n1),
            n2: UntArg::new("N2周期", n2),
            n3: UntArg::new("N3周期", n3),
            n4: UntArg::new("N4周期", n4),
        }
    }
}

impl Default for Core {
    /// The default periods 3, 6, 12 and 24 days.
    fn default() -> (r: Core)
        ensures
            r.n1.name@ == "N1周期"@ && r.n1.value == 3,
            r.n2.name@ == "N2周期"@ && r.n2.value == 6,
            r.n3.name@ == "N3周期"@ && r.n3.value == 12,
            r.n4.name@ == "N4周期"@ && r.n4.value == 24,
    {
        Core::new(3, 6, 12, 24)
    }
}

} // verus!
