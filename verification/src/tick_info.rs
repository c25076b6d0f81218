//! What a pool keeps of a tick.
use vstd::prelude::*;

verus! {

/// A position on the price grid.
pub type Tick = i32;

/// The state of a tick.
#[derive(Clone, Copy, Debug, PartialEq, Eq, Structural)]
pub struct TickInfo {
    pub liquidity_net: i128,
    pub initialized: bool,
}

impl Default for TickInfo {
    fn default() -> (r: TickInfo)
        ensures
            r == (TickInfo { liquidity_net: 0, initialized: false }),
    {
        TickInfo { liquidity_net: 0, initialized: false }
    }
}

} // verus!
