//! Types that the parts of the connection management share.

use vstd::prelude::*;

verus! {

/// The signal to start punching.
#[derive(Debug, Clone, Copy, PartialEq, Eq, Structural)]
pub struct GoSignal {
    /// The bits of the time at which both sides start, by the clock of the relay.
    pub start_at: u64,
}

} // verus!
