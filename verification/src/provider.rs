//! The two external payment providers as the dispatcher sees them: a
//! preferred default and a fallback, each with the fee and health figures
//! cached from the startup probe.

use vstd::prelude::*;

verus! {

/// Which provider a dispatcher currently prefers.
#[derive(Debug, Clone, Copy, PartialEq, Eq, Structural)]
pub enum CurrentProvider {
    Default,
    Fallback,
}

/// A provider's fee per transaction, carried as the bit pattern of the
/// 64-bit value the probe returned.
#[derive(Debug, Clone, Copy, PartialEq, Eq, Structural)]
pub struct Fee(pub u64);

/// One provider's cached probe figures. The dispatcher reads them; a
/// future health refresher would write them.
#[derive(Debug, Clone, Copy, PartialEq, Eq, Structural)]
pub struct Provider {
    pub fee: Fee,
    pub is_failing: bool,
    pub min_res_time: u64,
}

impl Provider {
    /// Caches one probe's figures.
    pub fn new(fee: Fee, is_failing: bool, min_res_time: u64) -> (r: Provider)
        ensures
            r.fee == fee,
            r.is_failing == is_failing,
            r.min_res_time == min_res_time,
    {
        Provider { fee, is_failing, min_res_time }
    }
}

} // verus!
