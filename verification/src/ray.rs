//! Prices as fixed-point numbers with 27 decimals.
use vstd::prelude::*;

use crate::words::{modulus_256, U256};

verus! {

/// One in the scale of [`Ray`].
pub open spec fn ray_scale() -> nat {
    1_000_000_000_000_000_000_000_000_000nat
}

/// A price with 27 decimals.
#[derive(Clone, Copy, Debug, PartialEq, Eq, Structural, Hash)]
pub struct Ray {
    pub value: U256,
}

impl View for Ray {
    type V = nat;

    open spec fn view(&self) -> nat {
        self.value@
    }
}

impl Ray {
    /// The price of token 0 in token 1 at which `t0` was exchanged for `t1`,
    /// rounded down.
    pub fn calc_price(t0: U256, t1: U256) -> (r: Ray)
        requires
            t0@ != 0,
            t1@ * ray_scale() < modulus_256(),
        ensures
            r@ == t1@ * ray_scale() / t0@,
    {
        let one: U256 = U256::from_u128(1_000_000_000_000_000_000_000_000_000u128);
        let scaled: U256 = t1.wrapping_mul(&one);
        proof {
            vstd::arithmetic::div_mod::lemma_small_mod(
                t1@ * ray_scale(),
                modulus_256() as nat,
            );
        }
        Ray { value: scaled.wrapping_div(&t0) }
    }
}

} // verus!
