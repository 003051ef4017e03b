//! Moving average convergence/divergence histogram.
use vstd::prelude::*;

use crate::args::UntArg;
use crate::router::mode1::RuleError;

verus! {

/// Periods of the MACD lines.
#[derive(Debug)]
pub struct Core {
    /// Short EMA period.
    pub short: UntArg,
    /// Long EMA period.
    pub long: UntArg,
    /// Signal EMA period.
    pub mid: UntArg,
}

impl Core {
    pub fn new(short: usize, long: usize, mid: usize) -> (r: Core)
        requires
            short >= 2,
            long >= 2,
            mid >= 2,
            short < long,
        ensures
            r.short.name@ == "短线"@ && r.short.value == short,
            r.long.name@ == "长线"@ && r.long.value == long,
            r.mid.name@ == "中线"@ && r.mid.value == mid,
    {
        Core { short: UntArg::new("短线", short), long: UntArg::new("长线", long), mid: UntArg::new("中线", mid) }
    }
}

/// The short period must be shorter than the long one; otherwise the error
/// has code `short_less_than_long`.
pub fn validate_core(core: &Core) -> (r: Result<(), RuleError>)
    ensures
        r is Ok <==> core.short.value < core.long.value,
        r matches Err(e) ==> e.code@ == "short_less_than_long"@ && e.message@ == "短线周期必须小于长线周期"@,
{
    if core.short.value < core.long.value {
        Ok(())
    } else {
        Err(RuleError { code: "short_less_than_long", message: "短线周期必须小于长线周期" })
    }
}

} // verus!
