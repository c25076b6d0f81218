//! Errors of pools and of the swaps across them.
use vstd::prelude::*;

use crate::words::{B256, I256};

verus! {

/// Why a swap could not be simulated.
#[derive(Debug)]
pub enum SwapSimulationError {
    /// Could not get next tick.
    InvalidTick,
    /// The price arithmetic failed.
    UniswapV3MathError(uniswap_v3_math::error::UniswapV3MathError),
    /// Liquidity underflow.
    LiquidityUnderflow,
    /// Invalid sqrt price limit.
    InvalidSqrtPriceLimit,
    /// Amount specified must be non-zero.
    ZeroAmountSpecified,
}

/// The kinds of [`SwapSimulationError`].
pub enum SwapFailure {
    InvalidTick,
    Math,
    LiquidityUnderflow,
    PriceLimit,
    ZeroAmount,
}

/// The kind of an error.
pub open spec fn swap_failure(error: SwapSimulationError) -> SwapFailure {
    match error {
        SwapSimulationError::InvalidTick => SwapFailure::InvalidTick,
        SwapSimulationError::UniswapV3MathError(_) => SwapFailure::Math,
        SwapSimulationError::LiquidityUnderflow => SwapFailure::LiquidityUnderflow,
        SwapSimulationError::InvalidSqrtPriceLimit => SwapFailure::PriceLimit,
        SwapSimulationError::ZeroAmountSpecified => SwapFailure::ZeroAmount,
    }
}

/// Why an operation on a pool failed.
#[derive(Debug)]
pub enum PoolError {
    /// An event whose topics belong to no known event.
    InvalidEventSignature(Vec<B256>),
    /// Swap simulation failed.
    SwapSimulationFailed,
    /// Pool already initialized.
    PoolAlreadyInitialized,
    /// Pool is not initialized.
    PoolNotInitialized,
    /// A swap simulation failed for the given reason.
    SwapSimulationError(SwapSimulationError),
}

/// A number that does not fit the type that it is wanted in.
#[derive(Clone, Copy, Debug, PartialEq, Eq, Structural)]
pub enum ConversionError {
    /// overflow from i32 to i24
    OverflowErrorI24(i32),
    /// overflow from I256 to I128
    OverflowErrorI28(I256),
}

} // verus!
