//! Updates to pools, the order in which they are applied, and a queue of them.
use std::cmp::Ordering;
use std::collections::{HashMap, VecDeque};

use vstd::prelude::*;

use crate::pool_key::PoolKey;
use crate::pool_state::BaselinePoolState;
use crate::tick_info::TickInfo;
use crate::traits::{
    next_update_step, FeeDelivery, LiquidityDelivery, NewPoolData, PoolUpdateDelivery, SwapDelivery,
};
use crate::words::{Address, PoolId, B256, I256, U160, U256};

verus! {

/// Swap event data
#[derive(Clone, Copy, Debug, PartialEq, Eq, Structural)]
pub struct SwapEventData {
    pub sender: Address,
    pub amount0: i128,
    pub amount1: i128,
    pub sqrt_price_x96: U160,
    pub liquidity: u128,
    pub tick: i32,
    pub fee: u32,
}

/// Modify liquidity event data
#[derive(Clone, Copy, Debug, PartialEq, Eq, Structural)]
pub struct ModifyLiquidityEventData {
    pub sender: Address,
    pub tick_lower: i32,
    pub tick_upper: i32,
    pub liquidity_delta: I256,
    pub salt: B256,
}

/// Current slot0 data for a pool
#[derive(Clone, Copy, Debug, PartialEq, Eq, Structural)]
pub struct Slot0Data {
    pub sqrt_price_x96: U160,
    pub tick: i32,
    pub liquidity: u128,
}

/// Slot0 update from real-time feed
#[derive(Clone, Copy, Debug, PartialEq, Eq, Structural, Hash)]
pub struct Slot0Update {
    /// there will be 120 updates per block or per 100ms
    pub seq_id: u16,
    /// in case of block lag on node
    pub current_block: u64,
    pub angstrom_pool_id: PoolId,
    pub uni_pool_id: PoolId,
    pub sqrt_price_x96: U160,
    pub liquidity: u128,
    pub tick: i32,
}

/// Different types of pool updates
#[derive(Debug)]
#[allow(inconsistent_fields)]
pub enum PoolUpdate {
    /// New block notification
    NewBlock(u64),
    /// Pool created via controller
    NewPool {
        pool_id: PoolId,
        token0: Address,
        token1: Address,
        bundle_fee: u32,
        swap_fee: u32,
        protocol_fee: u32,
        tick_spacing: i32,
        block: u64,
    },
    /// Swap event occurred
    SwapEvent { pool_id: PoolId, block: u64, tx_index: u64, log_index: u64, event: SwapEventData },
    /// Liquidity event occurred
    LiquidityEvent {
        pool_id: PoolId,
        block: u64,
        tx_index: u64,
        log_index: u64,
        event: ModifyLiquidityEventData,
    },
    /// Pool configured via controller
    PoolConfigured {
        pool_key: PoolKey,
        pool_id: PoolId,
        block: u64,
        bundle_fee: u32,
        swap_fee: u32,
        protocol_fee: u32,
        tick_spacing: i32,
    },
    /// Pool removed via controller
    PoolRemoved { pool_id: PoolId, block: u64 },
    /// Fee update event. the pool_id here is the one that the pool is registered by
    FeeUpdate {
        pool_id: PoolId,
        block: u64,
        bundle_fee: u32,
        swap_fee: u32,
        protocol_fee: u32,
    },
    /// Reorg detected
    Reorg { from_block: u64, to_block: u64 },
    /// Updated slot0 data after reorg
    UpdatedSlot0 { pool_id: PoolId, data: Slot0Data },
    /// Ticks of a pool were loaded
    NewTicks {
        pool_id: PoolId,
        ticks: HashMap<i32, TickInfo>,
        tick_bitmap: HashMap<i16, U256>,
    },
    /// The whole state of a pool was loaded
    NewPoolState { pool_id: PoolId, state: BaselinePoolState },
    /// Slot0 update from the real-time feed
    Slot0Update(Slot0Update),
}

/// Where an update stands within its block: by transaction, then by log. What
/// is not a log comes after all logs.
pub open spec fn sort_key(update: PoolUpdate) -> (u64, u64) {
    match update {
        PoolUpdate::SwapEvent { tx_index, log_index, .. } => (tx_index, log_index),
        PoolUpdate::LiquidityEvent { tx_index, log_index, .. } => (tx_index, log_index),
        _ => (u64::MAX, u64::MAX),
    }
}

/// Whether one position comes before another.
pub open spec fn key_before(a: (u64, u64), b: (u64, u64)) -> bool {
    a.0 < b.0 || (a.0 == b.0 && a.1 < b.1)
}

impl PoolUpdate {
    /// Where the update stands within its block.
    pub fn position(&self) -> (r: (u64, u64))
        ensures
            r == sort_key(*self),
    {
        match self {
            PoolUpdate::SwapEvent { tx_index, log_index, .. } => (*tx_index, *log_index),
            PoolUpdate::LiquidityEvent { tx_index, log_index, .. } => (*tx_index, *log_index),
            _ => (u64::MAX, u64::MAX),
        }
    }

    /// Orders updates by where they stand within their block.
    pub fn sort(&self, b: &Self) -> (r: Ordering)
        ensures
            r == (if key_before(sort_key(*self), sort_key(*b)) {
                Ordering::Less
            } else if key_before(sort_key(*b), sort_key(*self)) {
                Ordering::Greater
            } else {
                Ordering::Equal
            }),
    {
        let (this_tx_index, this_log_index) = self.position();
        let (other_tx_index, other_log_index) = b.position();
        if this_tx_index < other_tx_index {
            Ordering::Less
        } else if this_tx_index > other_tx_index {
            Ordering::Greater
        } else if this_log_index < other_log_index {
            Ordering::Less
        } else if this_log_index > other_log_index {
            Ordering::Greater
        } else {
            Ordering::Equal
        }
    }

    /// The update of a swap event.
    pub fn from_swap(
        pool_id: PoolId,
        block: u64,
        tx_index: u64,
        log_index: u64,
        event: SwapEventData,
    ) -> (r: Self)
        ensures
            r == (PoolUpdate::SwapEvent { pool_id, block, tx_index, log_index, event }),
    {
        PoolUpdate::SwapEvent { pool_id, block, tx_index, log_index, event }
    }

    /// The update of a liquidity event.
    pub fn from_liquidity(
        pool_id: PoolId,
        block: u64,
        tx_index: u64,
        log_index: u64,
        event: ModifyLiquidityEventData,
    ) -> (r: Self)
        ensures
            r == (PoolUpdate::LiquidityEvent { pool_id, block, tx_index, log_index, event }),
    {
        PoolUpdate::LiquidityEvent { pool_id, block, tx_index, log_index, event }
    }

    /// The update of a pool that was created.
    pub fn from_new_pool(
        pool_id: PoolId,
        token0: Address,
        token1: Address,
        bundle_fee: u32,
        swap_fee: u32,
        protocol_fee: u32,
        tick_spacing: i32,
        block: u64,
    ) -> (r: Self)
        ensures
            r == (PoolUpdate::NewPool {
                pool_id,
                token0,
                token1,
                bundle_fee,
                swap_fee,
                protocol_fee,
                tick_spacing,
                block,
            }),
    {
        PoolUpdate::NewPool {
            pool_id,
            token0,
            token1,
            bundle_fee,
            swap_fee,
            protocol_fee,
            tick_spacing,
            block,
        }
    }

    /// The update of fees that changed.
    pub fn from_fee_update(
        pool_id: PoolId,
        block: u64,
        bundle_fee: u32,
        swap_fee: u32,
        protocol_fee: u32,
    ) -> (r: Self)
        ensures
            r == (PoolUpdate::FeeUpdate { pool_id, block, bundle_fee, swap_fee, protocol_fee }),
    {
        PoolUpdate::FeeUpdate { pool_id, block, bundle_fee, swap_fee, protocol_fee }
    }
}

/// Whether one update is a copy of another: the same, with the same ticks and
/// the same state where it carries any.
pub open spec fn same_update(a: PoolUpdate, b: PoolUpdate) -> bool {
    match (a, b) {
        (
            PoolUpdate::NewTicks { pool_id, ticks, tick_bitmap },
            PoolUpdate::NewTicks { pool_id: id, ticks: other, tick_bitmap: words },
        ) => pool_id == id && ticks@ == other@ && tick_bitmap@ == words@,
        (
            PoolUpdate::NewPoolState { pool_id, state },
            PoolUpdate::NewPoolState { pool_id: id, state: other },
        ) => pool_id == id && state@ == other@,
        _ => a == b,
    }
}

/// Whether updates are copies of others, one by one.
pub open spec fn same_updates(a: Seq<PoolUpdate>, b: Seq<PoolUpdate>) -> bool {
    &&& a.len() == b.len()
    &&& forall|i: int|
        #![trigger a[i]]
        #![trigger b[i]]
        0 <= i < a.len() ==> same_update(a[i], b[i])
}

/// Copies of updates.
pub fn copy_updates(updates: &Vec<PoolUpdate>) -> (r: Vec<PoolUpdate>)
    ensures
        same_updates(r@, updates@),
{
    let mut out: Vec<PoolUpdate> = Vec::new();
    let mut i: usize = 0;
    while i < updates.len()
        invariant
            i <= updates.len(),
            out@.len() == i,
            forall|j: int| 0 <= j < i ==> same_update(#[trigger] out@[j], updates@[j]),
        decreases updates.len() - i,
    {
        out.push(updates[i].clone());
        i = i + 1;
    }
    out
}

impl Clone for PoolUpdate {
    fn clone(&self) -> (r: PoolUpdate)
        ensures
            same_update(r, *self),
    {
        match self {
            PoolUpdate::NewBlock(block) => PoolUpdate::NewBlock(*block),
            PoolUpdate::NewPool {
                pool_id,
                token0,
                token1,
                bundle_fee,
                swap_fee,
                protocol_fee,
                tick_spacing,
                block,
            } => PoolUpdate::NewPool {
                pool_id: *pool_id,
                token0: *token0,
                token1: *token1,
                bundle_fee: *bundle_fee,
                swap_fee: *swap_fee,
                protocol_fee: *protocol_fee,
                tick_spacing: *tick_spacing,
                block: *block,
            },
            PoolUpdate::SwapEvent { pool_id, block, tx_index, log_index, event } => {
                PoolUpdate::SwapEvent {
                    pool_id: *pool_id,
                    block: *block,
                    tx_index: *tx_index,
                    log_index: *log_index,
                    event: *event,
                }
            },
            PoolUpdate::LiquidityEvent { pool_id, block, tx_index, log_index, event } => {
                PoolUpdate::LiquidityEvent {
                    pool_id: *pool_id,
                    block: *block,
                    tx_index: *tx_index,
                    log_index: *log_index,
                    event: *event,
                }
            },
            PoolUpdate::PoolConfigured {
                pool_key,
                pool_id,
                block,
                bundle_fee,
                swap_fee,
                protocol_fee,
                tick_spacing,
            } => PoolUpdate::PoolConfigured {
                pool_key: *pool_key,
                pool_id: *pool_id,
                block: *block,
                bundle_fee: *bundle_fee,
                swap_fee: *swap_fee,
                protocol_fee: *protocol_fee,
                tick_spacing: *tick_spacing,
            },
            PoolUpdate::PoolRemoved { pool_id, block } => PoolUpdate::PoolRemoved {
                pool_id: *pool_id,
                block: *block,
            },
            PoolUpdate::FeeUpdate { pool_id, block, bundle_fee, swap_fee, protocol_fee } => {
                PoolUpdate::FeeUpdate {
                    pool_id: *pool_id,
                    block: *block,
                    bundle_fee: *bundle_fee,
                    swap_fee: *swap_fee,
                    protocol_fee: *protocol_fee,
                }
            },
            PoolUpdate::Reorg { from_block, to_block } => PoolUpdate::Reorg {
                from_block: *from_block,
                to_block: *to_block,
            },
            PoolUpdate::UpdatedSlot0 { pool_id, data } => PoolUpdate::UpdatedSlot0 {
                pool_id: *pool_id,
                data: *data,
            },
            PoolUpdate::NewTicks { pool_id, ticks, tick_bitmap } => PoolUpdate::NewTicks {
                pool_id: *pool_id,
                ticks: ticks.clone(),
                tick_bitmap: tick_bitmap.clone(),
            },
            PoolUpdate::NewPoolState { pool_id, state } => PoolUpdate::NewPoolState {
                pool_id: *pool_id,
                state: state.clone(),
            },
            PoolUpdate::Slot0Update(update) => PoolUpdate::Slot0Update(*update),
        }
    }
}

/// A queue-based implementation of PoolUpdateDelivery that allows feeding
/// PoolUpdate instances
pub struct PoolUpdateQueue {
    updates: VecDeque<PoolUpdate>,
}

impl View for PoolUpdateQueue {
    type V = Seq<PoolUpdate>;

    closed spec fn view(&self) -> Seq<PoolUpdate> {
        self.updates@
    }
}

impl PoolUpdateQueue {
    /// Create a new empty PoolUpdateQueue
    pub fn new() -> (r: Self)
        ensures
            r@.len() == 0,
    {
        PoolUpdateQueue { updates: VecDeque::new() }
    }

    /// Add a single update to the queue
    pub fn push(&mut self, update: PoolUpdate)
        ensures
            final(self)@ == old(self)@.push(update),
    {
        self.updates.push_back(update);
    }

    /// Add multiple updates to the queue
    pub fn extend(&mut self, updates: Vec<PoolUpdate>)
        ensures
            final(self)@ == old(self)@ + updates@,
    {
        let ghost all = updates@;
        let mut rest: Vec<PoolUpdate> = updates;
        while rest.len() > 0
            invariant
                rest@.len() <= all.len(),
                rest@ == all.skip(all.len() - rest@.len()),
                self@ == old(self)@ + all.take(all.len() - rest@.len()),
            decreases rest.len(),
        {
            let ghost done = all.len() - rest@.len();
            let update: PoolUpdate = rest.remove(0);
            self.updates.push_back(update);
            assert(rest@ =~= all.skip(done + 1));
            assert(self@ =~= old(self)@ + all.take(done + 1));
        }
        assert(all.take(all.len() as int) =~= all);
    }

    /// Get the number of pending updates
    pub fn len(&self) -> (r: usize)
        ensures
            r == self@.len(),
    {
        self.updates.len()
    }

    /// Check if the queue is empty
    pub fn is_empty(&self) -> (r: bool)
        ensures
            r == (self@.len() == 0),
    {
        self.updates.len() == 0
    }

    /// Clear all pending updates
    pub fn clear(&mut self)
        ensures
            final(self)@.len() == 0,
    {
        self.updates.clear();
    }
}

impl Default for PoolUpdateQueue {
    fn default() -> (r: Self)
        ensures
            r@.len() == 0,
    {
        PoolUpdateQueue::new()
    }
}

impl PoolUpdateDelivery for PoolUpdateQueue {
    open spec fn backlog(&self) -> nat {
        self@.len()
    }

    open spec fn new_block_step(before: Self, after: Self, r: Option<u64>) -> bool {
        if before@.len() > 0 && before@[0] is NewBlock {
            r == Some(before@[0]->NewBlock_0) && after@ == before@.skip(1)
        } else {
            r is None && after@ == before@
        }
    }

    open spec fn reorg_step(before: Self, after: Self, r: Option<(u64, u64)>) -> bool {
        if before@.len() > 0 && before@[0] is Reorg {
            r == Some((before@[0]->from_block, before@[0]->to_block)) && after@ == before@.skip(1)
        } else {
            r is None && after@ == before@
        }
    }

    open spec fn new_pool_step(before: Self, after: Self, r: Option<NewPoolData>) -> bool {
        if before@.len() > 0 && before@[0] is NewPool {
            r == Some((
                before@[0]->NewPool_pool_id,
                before@[0]->token0,
                before@[0]->token1,
                before@[0]->NewPool_bundle_fee,
                before@[0]->NewPool_swap_fee,
                before@[0]->NewPool_protocol_fee,
                before@[0]->NewPool_tick_spacing,
                before@[0]->NewPool_block,
            )) && after@ == before@.skip(1)
        } else {
            r is None && after@ == before@
        }
    }

    open spec fn pool_removal_step(before: Self, after: Self, r: Option<(PoolId, u64)>) -> bool {
        if before@.len() > 0 && before@[0] is PoolRemoved {
            r == Some((before@[0]->PoolRemoved_pool_id, before@[0]->PoolRemoved_block)) && after@ == before@.skip(1)
        } else {
            r is None && after@ == before@
        }
    }

    open spec fn swap_event_step(before: Self, after: Self, r: Option<SwapDelivery>) -> bool {
        if before@.len() > 0 && before@[0] is SwapEvent {
            r == Some((
                before@[0]->SwapEvent_pool_id,
                before@[0]->SwapEvent_block,
                before@[0]->SwapEvent_tx_index,
                before@[0]->SwapEvent_log_index,
                before@[0]->SwapEvent_event,
            )) && after@ == before@.skip(1)
        } else {
            r is None && after@ == before@
        }
    }

    open spec fn liquidity_event_step(before: Self, after: Self, r: Option<LiquidityDelivery>) -> bool {
        if before@.len() > 0 && before@[0] is LiquidityEvent {
            r == Some((
                before@[0]->LiquidityEvent_pool_id,
                before@[0]->LiquidityEvent_block,
                before@[0]->LiquidityEvent_tx_index,
                before@[0]->LiquidityEvent_log_index,
                before@[0]->LiquidityEvent_event,
            )) && after@ == before@.skip(1)
        } else {
            r is None && after@ == before@
        }
    }

    open spec fn fee_update_step(before: Self, after: Self, r: Option<FeeDelivery>) -> bool {
        if before@.len() > 0 && before@[0] is FeeUpdate {
            r == Some((
                before@[0]->FeeUpdate_pool_id,
                before@[0]->FeeUpdate_block,
                before@[0]->FeeUpdate_bundle_fee,
                before@[0]->FeeUpdate_swap_fee,
                before@[0]->FeeUpdate_protocol_fee,
            )) && after@ == before@.skip(1)
        } else {
            r is None && after@ == before@
        }
    }

    open spec fn slot0_update_step(before: Self, after: Self, r: Option<(PoolId, Slot0Data)>) -> bool {
        if before@.len() > 0 && before@[0] is UpdatedSlot0 {
            r == Some((before@[0]->UpdatedSlot0_pool_id, before@[0]->data)) && after@ == before@.skip(1)
        } else {
            r is None && after@ == before@
        }
    }

    fn get_new_block(&mut self) -> (r: Option<u64>) {
        if self.updates.len() == 0 {
            return None;
        }
        let r: Option<u64> = match &self.updates[0] {
            PoolUpdate::NewBlock(block) => Some(*block),
            _ => None,
        };
        if r.is_some() {
            self.updates.pop_front();
            assert(self@ =~= old(self)@.skip(1));
        }
        r
    }

    fn get_reorg(&mut self) -> (r: Option<(u64, u64)>) {
        if self.updates.len() == 0 {
            return None;
        }
        let r: Option<(u64, u64)> = match &self.updates[0] {
            PoolUpdate::Reorg { from_block, to_block } => Some((*from_block, *to_block)),
            _ => None,
        };
        if r.is_some() {
            self.updates.pop_front();
            assert(self@ =~= old(self)@.skip(1));
        }
        r
    }

    fn get_new_pool(&mut self) -> (r: Option<NewPoolData>) {
        if self.updates.len() == 0 {
            return None;
        }
        let r: Option<NewPoolData> = match &self.updates[0] {
            PoolUpdate::NewPool {
                pool_id,
                token0,
                token1,
                bundle_fee,
                swap_fee,
                protocol_fee,
                tick_spacing,
                block,
            } => Some(
                (
                    *pool_id,
                    *token0,
                    *token1,
                    *bundle_fee,
                    *swap_fee,
                    *protocol_fee,
                    *tick_spacing,
                    *block,
                ),
            ),
            _ => None,
        };
        if r.is_some() {
            self.updates.pop_front();
            assert(self@ =~= old(self)@.skip(1));
        }
        r
    }

    fn get_pool_removal(&mut self) -> (r: Option<(PoolId, u64)>) {
        if self.updates.len() == 0 {
            return None;
        }
        let r: Option<(PoolId, u64)> = match &self.updates[0] {
            PoolUpdate::PoolRemoved { pool_id, block } => Some((*pool_id, *block)),
            _ => None,
        };
        if r.is_some() {
            self.updates.pop_front();
            assert(self@ =~= old(self)@.skip(1));
        }
        r
    }

    fn get_swap_event(&mut self) -> (r: Option<SwapDelivery>) {
        if self.updates.len() == 0 {
            return None;
        }
        let r: Option<SwapDelivery> = match &self.updates[0] {
            PoolUpdate::SwapEvent { pool_id, block, tx_index, log_index, event } => Some(
                (*pool_id, *block, *tx_index, *log_index, *event),
            ),
            _ => None,
        };
        if r.is_some() {
            self.updates.pop_front();
            assert(self@ =~= old(self)@.skip(1));
        }
        r
    }

    fn get_liquidity_event(&mut self) -> (r: Option<LiquidityDelivery>) {
        if self.updates.len() == 0 {
            return None;
        }
        let r: Option<LiquidityDelivery> = match &self.updates[0] {
            PoolUpdate::LiquidityEvent { pool_id, block, tx_index, log_index, event } => Some(
                (*pool_id, *block, *tx_index, *log_index, *event),
            ),
            _ => None,
        };
        if r.is_some() {
            self.updates.pop_front();
            assert(self@ =~= old(self)@.skip(1));
        }
        r
    }

    fn get_fee_update(&mut self) -> (r: Option<FeeDelivery>) {
        if self.updates.len() == 0 {
            return None;
        }
        let r: Option<FeeDelivery> = match &self.updates[0] {
            PoolUpdate::FeeUpdate { pool_id, block, bundle_fee, swap_fee, protocol_fee } => Some(
                (*pool_id, *block, *bundle_fee, *swap_fee, *protocol_fee),
            ),
            _ => None,
        };
        if r.is_some() {
            self.updates.pop_front();
            assert(self@ =~= old(self)@.skip(1));
        }
        r
    }

    fn get_slot0_update(&mut self) -> (r: Option<(PoolId, Slot0Data)>) {
        if self.updates.len() == 0 {
            return None;
        }
        let r: Option<(PoolId, Slot0Data)> = match &self.updates[0] {
            PoolUpdate::UpdatedSlot0 { pool_id, data } => Some((*pool_id, *data)),
            _ => None,
        };
        if r.is_some() {
            self.updates.pop_front();
            assert(self@ =~= old(self)@.skip(1));
        }
        r
    }
}

/// Whether a queue hands out an update of this kind.
pub open spec fn is_deliverable(update: PoolUpdate) -> bool {
    ||| update is NewBlock
    ||| update is Reorg
    ||| update is NewPool
    ||| update is PoolRemoved
    ||| update is SwapEvent
    ||| update is LiquidityEvent
    ||| update is FeeUpdate
    ||| update is UpdatedSlot0
}

/// A queue hands out new blocks, reorganizations, new and removed pools, swaps, changes
/// of liquidity and of fees, and prices, each as it was put in and in its turn.
pub proof fn queue_hands_out_what_was_put_in(
    before: PoolUpdateQueue,
    after: PoolUpdateQueue,
    r: Option<PoolUpdate>,
)
    requires
        next_update_step(before, after, r),
    ensures
        before@.len() == 0 ==> r is None && after@.len() == 0,
        before@.len() > 0 && (before@[0] is NewBlock || before@[0] is Reorg || before@[0] is NewPool
            || before@[0] is PoolRemoved || before@[0] is SwapEvent || before@[0] is LiquidityEvent
            || before@[0] is FeeUpdate || before@[0] is UpdatedSlot0) ==> r == Some(before@[0])
            && after@ == before@.skip(1),
        before@.len() > 0 && (before@[0] is PoolConfigured || before@[0] is NewTicks
            || before@[0] is NewPoolState || before@[0] is Slot0Update) ==> r is None && after@
            == before@,
{
}

/// A queue hands out its updates in the order in which they were put in: the
/// next update is the first of the queue, and the queue goes on with the rest.
/// An update of a kind that is not handed out holds up the queue.
pub proof fn queue_is_first_in_first_out(
    before: PoolUpdateQueue,
    after: PoolUpdateQueue,
    r: Option<PoolUpdate>,
)
    requires
        next_update_step(before, after, r),
    ensures
        if before@.len() > 0 && is_deliverable(before@[0]) {
            r == Some(before@[0]) && after@ == before@.skip(1)
        } else {
            r is None && after@ == before@
        },
{
}

} // verus!
