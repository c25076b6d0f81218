//! Sources that deliver pool updates.
use vstd::prelude::*;

use crate::updates::{ModifyLiquidityEventData, PoolUpdate, Slot0Data, SwapEventData};
use crate::words::{Address, PoolId};

verus! {

/// What a new pool is delivered as: (pool_id, token0, token1, bundle_fee,
/// swap_fee, protocol_fee, tick_spacing, block)
pub type NewPoolData = (PoolId, Address, Address, u32, u32, u32, i32, u64);

/// What a swap is delivered as: (pool_id, block, tx_index, log_index,
/// event_data)
pub type SwapDelivery = (PoolId, u64, u64, u64, SwapEventData);

/// What a liquidity modification is delivered as: (pool_id, block, tx_index,
/// log_index, event_data)
pub type LiquidityDelivery = (PoolId, u64, u64, u64, ModifyLiquidityEventData);

/// What a fee update is delivered as: (pool_id, block, bundle_fee, swap_fee,
/// protocol_fee)
pub type FeeDelivery = (PoolId, u64, u32, u32, u32);

/// Trait for delivering pool updates from various data sources
///
/// Implement this trait on your data delivery struct to provide pool updates.
/// Each method returns the specific data needed to construct a `PoolUpdate`
/// variant. Return `None` if no update of that type is available.
///
/// For each method the source says how its state changes and what it hands
/// out; a source has a bounded number of updates at hand, which shrinks with
/// each that it hands out.
pub trait PoolUpdateDelivery: Sized {
    /// How many updates are at hand.
    spec fn backlog(&self) -> nat;

    /// Whether `get_new_block` takes a source from `before` to `after`.
    spec fn new_block_step(before: Self, after: Self, r: Option<u64>) -> bool;

    /// Whether `get_reorg` takes a source from `before` to `after`.
    spec fn reorg_step(before: Self, after: Self, r: Option<(u64, u64)>) -> bool;

    /// Whether `get_new_pool` takes a source from `before` to `after`.
    spec fn new_pool_step(before: Self, after: Self, r: Option<NewPoolData>) -> bool;

    /// Whether `get_pool_removal` takes a source from `before` to `after`.
    spec fn pool_removal_step(before: Self, after: Self, r: Option<(PoolId, u64)>) -> bool;

    /// Whether `get_swap_event` takes a source from `before` to `after`.
    spec fn swap_event_step(before: Self, after: Self, r: Option<SwapDelivery>) -> bool;

    /// Whether `get_liquidity_event` takes a source from `before` to `after`.
    spec fn liquidity_event_step(before: Self, after: Self, r: Option<LiquidityDelivery>) -> bool;

    /// Whether `get_fee_update` takes a source from `before` to `after`.
    spec fn fee_update_step(before: Self, after: Self, r: Option<FeeDelivery>) -> bool;

    /// Whether `get_slot0_update` takes a source from `before` to `after`.
    spec fn slot0_update_step(before: Self, after: Self, r: Option<(PoolId, Slot0Data)>) -> bool;

    /// Get notification of a new block
    fn get_new_block(&mut self) -> (r: Option<u64>)
        ensures
            Self::new_block_step(*old(self), *final(self), r),
            final(self).backlog() <= old(self).backlog(),
            r is Some ==> final(self).backlog() < old(self).backlog(),
    ;

    /// Get notification of a chain reorganization
    /// Returns: (from_block, to_block)
    fn get_reorg(&mut self) -> (r: Option<(u64, u64)>)
        ensures
            Self::reorg_step(*old(self), *final(self), r),
            final(self).backlog() <= old(self).backlog(),
            r is Some ==> final(self).backlog() < old(self).backlog(),
    ;

    /// Get a new pool creation event
    fn get_new_pool(&mut self) -> (r: Option<NewPoolData>)
        ensures
            Self::new_pool_step(*old(self), *final(self), r),
            final(self).backlog() <= old(self).backlog(),
            r is Some ==> final(self).backlog() < old(self).backlog(),
    ;

    /// Get a pool removal event
    /// Returns: (pool_id, block)
    fn get_pool_removal(&mut self) -> (r: Option<(PoolId, u64)>)
        ensures
            Self::pool_removal_step(*old(self), *final(self), r),
            final(self).backlog() <= old(self).backlog(),
            r is Some ==> final(self).backlog() < old(self).backlog(),
    ;

    /// Get a swap event
    fn get_swap_event(&mut self) -> (r: Option<SwapDelivery>)
        ensures
            Self::swap_event_step(*old(self), *final(self), r),
            final(self).backlog() <= old(self).backlog(),
            r is Some ==> final(self).backlog() < old(self).backlog(),
    ;

    /// Get a liquidity modification event
    fn get_liquidity_event(&mut self) -> (r: Option<LiquidityDelivery>)
        ensures
            Self::liquidity_event_step(*old(self), *final(self), r),
            final(self).backlog() <= old(self).backlog(),
            r is Some ==> final(self).backlog() < old(self).backlog(),
    ;

    /// Get a fee update event
    fn get_fee_update(&mut self) -> (r: Option<FeeDelivery>)
        ensures
            Self::fee_update_step(*old(self), *final(self), r),
            final(self).backlog() <= old(self).backlog(),
            r is Some ==> final(self).backlog() < old(self).backlog(),
    ;

    /// Get a slot0 update (real-time price/liquidity/tick update)
    /// Returns: (pool_id, slot0_data)
    fn get_slot0_update(&mut self) -> (r: Option<(PoolId, Slot0Data)>)
        ensures
            Self::slot0_update_step(*old(self), *final(self), r),
            final(self).backlog() <= old(self).backlog(),
            r is Some ==> final(self).backlog() < old(self).backlog(),
    ;
}

/// The update of a new block.
pub open spec fn block_update(r: Option<u64>) -> Option<PoolUpdate> {
    match r {
        Some(block) => Some(PoolUpdate::NewBlock(block)),
        None => None,
    }
}

/// The update of a reorganization.
pub open spec fn reorg_update(r: Option<(u64, u64)>) -> Option<PoolUpdate> {
    match r {
        Some((from_block, to_block)) => Some(PoolUpdate::Reorg { from_block, to_block }),
        None => None,
    }
}

/// The update of a new pool.
pub open spec fn new_pool_update(r: Option<NewPoolData>) -> Option<PoolUpdate> {
    match r {
        Some(d) => Some(
            PoolUpdate::NewPool {
                pool_id: d.0,
                token0: d.1,
                token1: d.2,
                bundle_fee: d.3,
                swap_fee: d.4,
                protocol_fee: d.5,
                tick_spacing: d.6,
                block: d.7,
            },
        ),
        None => None,
    }
}

/// The update of a removed pool.
pub open spec fn removal_update(r: Option<(PoolId, u64)>) -> Option<PoolUpdate> {
    match r {
        Some((pool_id, block)) => Some(PoolUpdate::PoolRemoved { pool_id, block }),
        None => None,
    }
}

/// The update of a swap.
pub open spec fn swap_update(r: Option<SwapDelivery>) -> Option<PoolUpdate> {
    match r {
        Some(d) => Some(
            PoolUpdate::SwapEvent {
                pool_id: d.0,
                block: d.1,
                tx_index: d.2,
                log_index: d.3,
                event: d.4,
            },
        ),
        None => None,
    }
}

/// The update of a liquidity modification.
pub open spec fn liquidity_update(r: Option<LiquidityDelivery>) -> Option<PoolUpdate> {
    match r {
        Some(d) => Some(
            PoolUpdate::LiquidityEvent {
                pool_id: d.0,
                block: d.1,
                tx_index: d.2,
                log_index: d.3,
                event: d.4,
            },
        ),
        None => None,
    }
}

/// The update of changed fees.
pub open spec fn fee_update(r: Option<FeeDelivery>) -> Option<PoolUpdate> {
    match r {
        Some(d) => Some(
            PoolUpdate::FeeUpdate {
                pool_id: d.0,
                block: d.1,
                bundle_fee: d.2,
                swap_fee: d.3,
                protocol_fee: d.4,
            },
        ),
        None => None,
    }
}

/// The update of a price.
pub open spec fn slot0_update(r: Option<(PoolId, Slot0Data)>) -> Option<PoolUpdate> {
    match r {
        Some((pool_id, data)) => Some(PoolUpdate::UpdatedSlot0 { pool_id, data }),
        None => None,
    }
}

/// What a source delivers becomes an update with the same pool, block and values, and
/// nothing becomes nothing.
pub proof fn deliveries_become_updates(
    block: Option<u64>,
    reorg: Option<(u64, u64)>,
    pool: Option<NewPoolData>,
    removal: Option<(PoolId, u64)>,
    swap: Option<SwapDelivery>,
    liquidity: Option<LiquidityDelivery>,
    fees: Option<FeeDelivery>,
    price: Option<(PoolId, Slot0Data)>,
)
    ensures
        block is None <==> block_update(block) is None,
        block matches Some(b) ==> block_update(block) == Some(PoolUpdate::NewBlock(b)),
        reorg is None <==> reorg_update(reorg) is None,
        reorg matches Some((from_block, to_block)) ==> reorg_update(reorg) == Some(
            PoolUpdate::Reorg { from_block, to_block },
        ),
        pool is None <==> new_pool_update(pool) is None,
        pool matches Some((
            pool_id,
            token0,
            token1,
            bundle_fee,
            swap_fee,
            protocol_fee,
            tick_spacing,
            block,
        )) ==> new_pool_update(pool) == Some(
            PoolUpdate::NewPool {
                pool_id,
                token0,
                token1,
                bundle_fee,
                swap_fee,
                protocol_fee,
                tick_spacing,
                block,
            },
        ),
        removal is None <==> removal_update(removal) is None,
        removal matches Some((pool_id, block)) ==> removal_update(removal) == Some(
            PoolUpdate::PoolRemoved { pool_id, block },
        ),
        swap is None <==> swap_update(swap) is None,
        swap matches Some((pool_id, block, tx_index, log_index, event)) ==> swap_update(swap)
            == Some(PoolUpdate::SwapEvent { pool_id, block, tx_index, log_index, event }),
        liquidity is None <==> liquidity_update(liquidity) is None,
        liquidity matches Some((pool_id, block, tx_index, log_index, event)) ==> liquidity_update(
            liquidity,
        ) == Some(PoolUpdate::LiquidityEvent { pool_id, block, tx_index, log_index, event }),
        fees is None <==> fee_update(fees) is None,
        fees matches Some((pool_id, block, bundle_fee, swap_fee, protocol_fee)) ==> fee_update(fees)
            == Some(
            PoolUpdate::FeeUpdate { pool_id, block, bundle_fee, swap_fee, protocol_fee },
        ),
        price is None <==> slot0_update(price) is None,
        price matches Some((pool_id, data)) ==> slot0_update(price) == Some(
            PoolUpdate::UpdatedSlot0 { pool_id, data },
        ),
{
}

/// Asking a source for a price, and for nothing else.
pub open spec fn ask_slot0<T: PoolUpdateDelivery>(
    before: T,
    after: T,
    r: Option<PoolUpdate>,
) -> bool {
    exists|o: Option<(PoolId, Slot0Data)>|
        #[trigger] T::slot0_update_step(before, after, o) && r == slot0_update(o)
}

/// Asking a source for changed fees, and then for what comes after.
pub open spec fn ask_fee<T: PoolUpdateDelivery>(
    before: T,
    after: T,
    r: Option<PoolUpdate>,
) -> bool {
    exists|mid: T, o: Option<FeeDelivery>| #[trigger]
        T::fee_update_step(before, mid, o) && if o is Some {
            after == mid && r == fee_update(o)
        } else {
            ask_slot0(mid, after, r)
        }
}

/// Asking a source for a liquidity modification, and then for what comes
/// after.
pub open spec fn ask_liquidity<T: PoolUpdateDelivery>(
    before: T,
    after: T,
    r: Option<PoolUpdate>,
) -> bool {
    exists|mid: T, o: Option<LiquidityDelivery>| #[trigger]
        T::liquidity_event_step(before, mid, o) && if o is Some {
            after == mid && r == liquidity_update(o)
        } else {
            ask_fee(mid, after, r)
        }
}

/// Asking a source for a swap, and then for what comes after.
pub open spec fn ask_swap<T: PoolUpdateDelivery>(
    before: T,
    after: T,
    r: Option<PoolUpdate>,
) -> bool {
    exists|mid: T, o: Option<SwapDelivery>| #[trigger]
        T::swap_event_step(before, mid, o) && if o is Some {
            after == mid && r == swap_update(o)
        } else {
            ask_liquidity(mid, after, r)
        }
}

/// Asking a source for a removed pool, and then for what comes after.
pub open spec fn ask_removal<T: PoolUpdateDelivery>(
    before: T,
    after: T,
    r: Option<PoolUpdate>,
) -> bool {
    exists|mid: T, o: Option<(PoolId, u64)>| #[trigger]
        T::pool_removal_step(before, mid, o) && if o is Some {
            after == mid && r == removal_update(o)
        } else {
            ask_swap(mid, after, r)
        }
}

/// Asking a source for a new pool, and then for what comes after.
pub open spec fn ask_new_pool<T: PoolUpdateDelivery>(
    before: T,
    after: T,
    r: Option<PoolUpdate>,
) -> bool {
    exists|mid: T, o: Option<NewPoolData>| #[trigger]
        T::new_pool_step(before, mid, o) && if o is Some {
            after == mid && r == new_pool_update(o)
        } else {
            ask_removal(mid, after, r)
        }
}

/// Asking a source for a reorganization, and then for what comes after.
pub open spec fn ask_reorg<T: PoolUpdateDelivery>(
    before: T,
    after: T,
    r: Option<PoolUpdate>,
) -> bool {
    exists|mid: T, o: Option<(u64, u64)>| #[trigger]
        T::reorg_step(before, mid, o) && if o is Some {
            after == mid && r == reorg_update(o)
        } else {
            ask_new_pool(mid, after, r)
        }
}

/// Asking a source for its next update: for a new block, a reorganization, a
/// new pool, a removed pool, a swap, a liquidity modification, changed fees
/// and a price, in this order, up to the first that it has.
pub open spec fn next_update_step<T: PoolUpdateDelivery>(
    before: T,
    after: T,
    r: Option<PoolUpdate>,
) -> bool {
    exists|mid: T, o: Option<u64>| #[trigger]
        T::new_block_step(before, mid, o) && if o is Some {
            after == mid && r == block_update(o)
        } else {
            ask_reorg(mid, after, r)
        }
}

/// Whether a source was asked for a new block and had none.
pub open spec fn without_block<T: PoolUpdateDelivery>(before: T, s: T) -> bool {
    T::new_block_step(before, s, None)
}

/// Whether a source was then asked for a reorganization and had none.
pub open spec fn without_reorg<T: PoolUpdateDelivery>(before: T, s: T) -> bool {
    exists|a: T| #[trigger] without_block(before, a) && T::reorg_step(a, s, None)
}

/// Whether a source was then asked for a new pool and had none.
pub open spec fn without_new_pool<T: PoolUpdateDelivery>(before: T, s: T) -> bool {
    exists|a: T| #[trigger] without_reorg(before, a) && T::new_pool_step(a, s, None)
}

/// Whether a source was then asked for a removed pool and had none.
pub open spec fn without_removal<T: PoolUpdateDelivery>(before: T, s: T) -> bool {
    exists|a: T| #[trigger] without_new_pool(before, a) && T::pool_removal_step(a, s, None)
}

/// Whether a source was then asked for a swap and had none.
pub open spec fn without_swap<T: PoolUpdateDelivery>(before: T, s: T) -> bool {
    exists|a: T| #[trigger] without_removal(before, a) && T::swap_event_step(a, s, None)
}

/// Whether a source was then asked for a liquidity modification and had none.
pub open spec fn without_liquidity<T: PoolUpdateDelivery>(before: T, s: T) -> bool {
    exists|a: T| #[trigger] without_swap(before, a) && T::liquidity_event_step(a, s, None)
}

/// Whether a source was then asked for changed fees and had none.
pub open spec fn without_fees<T: PoolUpdateDelivery>(before: T, s: T) -> bool {
    exists|a: T| #[trigger] without_liquidity(before, a) && T::fee_update_step(a, s, None)
}

/// An update comes from a source only where the source had none of the kinds that are
/// asked for before it: a swap only where it had no new block, no reorganization, no new
/// pool and no removed one, changed fees only where it had no swap and no liquidity
/// modification either, and a price, or nothing, last of all. The update is what the
/// source handed out.
pub proof fn kinds_are_asked_for_in_order<T: PoolUpdateDelivery>(
    before: T,
    after: T,
    r: Option<PoolUpdate>,
)
    requires
        next_update_step(before, after, r),
    ensures
        r matches Some(PoolUpdate::NewBlock(block)) ==> T::new_block_step(
            before,
            after,
            Some(block),
        ),
        r matches Some(PoolUpdate::Reorg { from_block, to_block }) ==> exists|s: T| #[trigger]
            without_block(before, s) && T::reorg_step(s, after, Some((from_block, to_block))),
        r matches Some(PoolUpdate::NewPool {
            pool_id,
            token0,
            token1,
            bundle_fee,
            swap_fee,
            protocol_fee,
            tick_spacing,
            block,
        }) ==> exists|s: T| #[trigger]
            without_reorg(before, s) && T::new_pool_step(
                s,
                after,
                Some(
                    (
                        pool_id,
                        token0,
                        token1,
                        bundle_fee,
                        swap_fee,
                        protocol_fee,
                        tick_spacing,
                        block,
                    ),
                ),
            ),
        r matches Some(PoolUpdate::PoolRemoved { pool_id, block }) ==> exists|s: T| #[trigger]
            without_new_pool(before, s) && T::pool_removal_step(s, after, Some((pool_id, block))),
        r matches Some(PoolUpdate::SwapEvent { pool_id, block, tx_index, log_index, event })
            ==> exists|s: T| #[trigger]
            without_removal(before, s) && T::swap_event_step(
                s,
                after,
                Some((pool_id, block, tx_index, log_index, event)),
            ),
        r matches Some(PoolUpdate::LiquidityEvent { pool_id, block, tx_index, log_index, event })
            ==> exists|s: T| #[trigger]
            without_swap(before, s) && T::liquidity_event_step(
                s,
                after,
                Some((pool_id, block, tx_index, log_index, event)),
            ),
        r matches Some(PoolUpdate::FeeUpdate {
            pool_id,
            block,
            bundle_fee,
            swap_fee,
            protocol_fee,
        }) ==> exists|s: T| #[trigger]
            without_liquidity(before, s) && T::fee_update_step(
                s,
                after,
                Some((pool_id, block, bundle_fee, swap_fee, protocol_fee)),
            ),
        r matches Some(PoolUpdate::UpdatedSlot0 { pool_id, data }) ==> exists|s: T| #[trigger]
            without_fees(before, s) && T::slot0_update_step(s, after, Some((pool_id, data))),
        r is None ==> exists|s: T| #[trigger]
            without_fees(before, s) && T::slot0_update_step(s, after, None),
{
    let (s1, o1) = choose|mid: T, o: Option<u64>| #[trigger]
        T::new_block_step(before, mid, o) && if o is Some {
            after == mid && r == block_update(o)
        } else {
            ask_reorg(mid, after, r)
        };
    if o1 is None {
        assert(without_block(before, s1));
        let (s2, o2) = choose|mid: T, o: Option<(u64, u64)>| #[trigger]
            T::reorg_step(s1, mid, o) && if o is Some {
                after == mid && r == reorg_update(o)
            } else {
                ask_new_pool(mid, after, r)
            };
        if o2 is None {
            assert(without_reorg(before, s2));
            no_reorg_at_hand(before, s2, after, r);
        }
    }
}

/// What comes of a source that had no new block and no reorganization.
proof fn no_reorg_at_hand<T: PoolUpdateDelivery>(
    before: T,
    s2: T,
    after: T,
    r: Option<PoolUpdate>,
)
    requires
        without_reorg(before, s2),
        ask_new_pool(s2, after, r),
    ensures
        !(r matches Some(PoolUpdate::NewBlock(_))),
        !(r matches Some(PoolUpdate::Reorg { .. })),
        r matches Some(PoolUpdate::NewPool {
            pool_id,
            token0,
            token1,
            bundle_fee,
            swap_fee,
            protocol_fee,
            tick_spacing,
            block,
        }) ==> exists|s: T| #[trigger]
            without_reorg(before, s) && T::new_pool_step(
                s,
                after,
                Some(
                    (
                        pool_id,
                        token0,
                        token1,
                        bundle_fee,
                        swap_fee,
                        protocol_fee,
                        tick_spacing,
                        block,
                    ),
                ),
            ),
        r matches Some(PoolUpdate::PoolRemoved { pool_id, block }) ==> exists|s: T| #[trigger]
            without_new_pool(before, s) && T::pool_removal_step(s, after, Some((pool_id, block))),
        r matches Some(PoolUpdate::SwapEvent { pool_id, block, tx_index, log_index, event })
            ==> exists|s: T| #[trigger]
            without_removal(before, s) && T::swap_event_step(
                s,
                after,
                Some((pool_id, block, tx_index, log_index, event)),
            ),
        r matches Some(PoolUpdate::LiquidityEvent { pool_id, block, tx_index, log_index, event })
            ==> exists|s: T| #[trigger]
            without_swap(before, s) && T::liquidity_event_step(
                s,
                after,
                Some((pool_id, block, tx_index, log_index, event)),
            ),
        r matches Some(PoolUpdate::FeeUpdate {
            pool_id,
            block,
            bundle_fee,
            swap_fee,
            protocol_fee,
        }) ==> exists|s: T| #[trigger]
            without_liquidity(before, s) && T::fee_update_step(
                s,
                after,
                Some((pool_id, block, bundle_fee, swap_fee, protocol_fee)),
            ),
        r matches Some(PoolUpdate::UpdatedSlot0 { pool_id, data }) ==> exists|s: T| #[trigger]
            without_fees(before, s) && T::slot0_update_step(s, after, Some((pool_id, data))),
        r is None ==> exists|s: T| #[trigger]
            without_fees(before, s) && T::slot0_update_step(s, after, None),
{
    let (s3, o3) = choose|mid: T, o: Option<NewPoolData>| #[trigger]
        T::new_pool_step(s2, mid, o) && if o is Some {
            after == mid && r == new_pool_update(o)
        } else {
            ask_removal(mid, after, r)
        };
    if o3 is None {
        assert(without_new_pool(before, s3));
        let (s4, o4) = choose|mid: T, o: Option<(PoolId, u64)>| #[trigger]
            T::pool_removal_step(s3, mid, o) && if o is Some {
                after == mid && r == removal_update(o)
            } else {
                ask_swap(mid, after, r)
            };
        if o4 is None {
            assert(without_removal(before, s4));
            let (s5, o5) = choose|mid: T, o: Option<SwapDelivery>| #[trigger]
                T::swap_event_step(s4, mid, o) && if o is Some {
                    after == mid && r == swap_update(o)
                } else {
                    ask_liquidity(mid, after, r)
                };
            if o5 is None {
                assert(without_swap(before, s5));
                let (s6, o6) = choose|mid: T, o: Option<LiquidityDelivery>| #[trigger]
                    T::liquidity_event_step(s5, mid, o) && if o is Some {
                        after == mid && r == liquidity_update(o)
                    } else {
                        ask_fee(mid, after, r)
                    };
                if o6 is None {
                    assert(without_liquidity(before, s6));
                    let (s7, o7) = choose|mid: T, o: Option<FeeDelivery>| #[trigger]
                        T::fee_update_step(s6, mid, o) && if o is Some {
                            after == mid && r == fee_update(o)
                        } else {
                            ask_slot0(mid, after, r)
                        };
                    if o7 is None {
                        assert(without_fees(before, s7));
                    }
                }
            }
        }
    }
}

/// Extension trait for PoolUpdateDelivery that provides a method to get the
/// next available update
pub trait PoolUpdateDeliveryExt: PoolUpdateDelivery {
    /// Get the next available update of any type
    fn next_update(&mut self) -> (r: Option<PoolUpdate>)
        ensures
            next_update_step(*old(self), *final(self), r),
            final(self).backlog() <= old(self).backlog(),
            r is Some ==> final(self).backlog() < old(self).backlog(),
    {
        // Try each update type in priority order
        let ghost s0 = *self;
        let new_block: Option<u64> = self.get_new_block();
        let ghost s1 = *self;
        if let Some(block) = new_block {
            return Some(PoolUpdate::NewBlock(block));
        }
        let reorg: Option<(u64, u64)> = self.get_reorg();
        let ghost s2 = *self;
        if let Some((from_block, to_block)) = reorg {
            assert(ask_reorg(s1, *self, reorg_update(reorg)));
            return Some(PoolUpdate::Reorg { from_block, to_block });
        }
        let new_pool: Option<NewPoolData> = self.get_new_pool();
        let ghost s3 = *self;
        if let Some(d) = new_pool {
            assert(ask_new_pool(s2, *self, new_pool_update(new_pool)));
            assert(ask_reorg(s1, *self, new_pool_update(new_pool)));
            return Some(PoolUpdate::from_new_pool(d.0, d.1, d.2, d.3, d.4, d.5, d.6, d.7));
        }
        let removal: Option<(PoolId, u64)> = self.get_pool_removal();
        let ghost s4 = *self;
        if let Some((pool_id, block)) = removal {
            assert(ask_removal(s3, *self, removal_update(removal)));
            assert(ask_new_pool(s2, *self, removal_update(removal)));
            assert(ask_reorg(s1, *self, removal_update(removal)));
            return Some(PoolUpdate::PoolRemoved { pool_id, block });
        }
        let swap: Option<SwapDelivery> = self.get_swap_event();
        let ghost s5 = *self;
        if let Some(d) = swap {
            assert(ask_swap(s4, *self, swap_update(swap)));
            assert(ask_removal(s3, *self, swap_update(swap)));
            assert(ask_new_pool(s2, *self, swap_update(swap)));
            assert(ask_reorg(s1, *self, swap_update(swap)));
            return Some(PoolUpdate::from_swap(d.0, d.1, d.2, d.3, d.4));
        }
        let liquidity: Option<LiquidityDelivery> = self.get_liquidity_event();
        let ghost s6 = *self;
        if let Some(d) = liquidity {
            assert(ask_liquidity(s5, *self, liquidity_update(liquidity)));
            assert(ask_swap(s4, *self, liquidity_update(liquidity)));
            assert(ask_removal(s3, *self, liquidity_update(liquidity)));
            assert(ask_new_pool(s2, *self, liquidity_update(liquidity)));
            assert(ask_reorg(s1, *self, liquidity_update(liquidity)));
            return Some(PoolUpdate::from_liquidity(d.0, d.1, d.2, d.3, d.4));
        }
        let fees: Option<FeeDelivery> = self.get_fee_update();
        let ghost s7 = *self;
        if let Some(d) = fees {
            assert(ask_fee(s6, *self, fee_update(fees)));
            assert(ask_liquidity(s5, *self, fee_update(fees)));
            assert(ask_swap(s4, *self, fee_update(fees)));
            assert(ask_removal(s3, *self, fee_update(fees)));
            assert(ask_new_pool(s2, *self, fee_update(fees)));
            assert(ask_reorg(s1, *self, fee_update(fees)));
            return Some(PoolUpdate::from_fee_update(d.0, d.1, d.2, d.3, d.4));
        }
        let slot0: Option<(PoolId, Slot0Data)> = self.get_slot0_update();
        assert(ask_slot0(s7, *self, slot0_update(slot0)));
        assert(ask_fee(s6, *self, slot0_update(slot0)));
        assert(ask_liquidity(s5, *self, slot0_update(slot0)));
        assert(ask_swap(s4, *self, slot0_update(slot0)));
        assert(ask_removal(s3, *self, slot0_update(slot0)));
        assert(ask_new_pool(s2, *self, slot0_update(slot0)));
        assert(ask_reorg(s1, *self, slot0_update(slot0)));
        match slot0 {
            Some((pool_id, data)) => Some(PoolUpdate::UpdatedSlot0 { pool_id, data }),
            None => None,
        }
    }
}

// Blanket implementation
impl<T: PoolUpdateDelivery> PoolUpdateDeliveryExt for T {

}

} // verus!
