//! Index return history interface.
use vstd::prelude::*;

verus! {

/// Request for the return history of an index.
#[derive(Debug)]
pub struct HistoryReq {
    /// Index name; the history lives in `{name}.json` of the index directory.
    pub name: String,
}

} // verus!
