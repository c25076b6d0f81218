//! Square root prices with 96 fractional bits.
use vstd::prelude::*;

use crate::words::{U160, U256};

verus! {

/// The square root of a pool's price, as a fixed-point number with 96
/// fractional bits.
#[derive(Clone, Copy, Debug, PartialEq, Eq, Structural, Hash)]
pub struct SqrtPriceX96 {
    pub value: U256,
}

impl View for SqrtPriceX96 {
    type V = nat;

    open spec fn view(&self) -> nat {
        self.value@
    }
}

impl SqrtPriceX96 {
    /// The price that a full word holds.
    pub fn from_u256(value: U256) -> (r: SqrtPriceX96)
        ensures
            r@ == value@,
            r.value == value,
    {
        SqrtPriceX96 { value }
    }

    /// The price that an on-chain 160-bit value holds.
    pub fn from_u160(value: U160) -> (r: SqrtPriceX96)
        ensures
            r@ == value@,
    {
        SqrtPriceX96 { value: value.to_u256() }
    }

    /// The price as a word.
    pub fn to_u256(&self) -> (r: U256)
        ensures
            r@ == self@,
            r == self.value,
    {
        self.value
    }

    /// Whether `self` is the lower price.
    pub fn lt(&self, other: &SqrtPriceX96) -> (r: bool)
        ensures
            r == (self@ < other@),
    {
        self.value.lt(&other.value)
    }
}

} // verus!
