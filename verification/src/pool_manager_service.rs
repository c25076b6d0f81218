//! The service that keeps pools in step with the chain.
use vstd::prelude::*;

use crate::baseline_pool_factory::{
    load_of, BaselinePoolFactory, BaselinePoolFactoryError, PoolLoad, UpdateMessage,
    INITIAL_TICKS_PER_SIDE,
};
use crate::pool_key::PoolKey;
use crate::pool_registry::{
    is_known_key, is_private_id, public_id, with_pool, without_pool, RegistryView,
};
use crate::pool_state::BaselinePoolState;
use crate::shared_pools::{
    after_updates, after_updates_of_copies, last_block, pools_after, PoolsView, UniswapPools,
};
use crate::sorting::stable_sort;
use crate::updates::{copy_updates, PoolUpdate, Slot0Update};
use crate::words::{Address, PoolId};

verus! {

/// Pool information combining BaselinePoolState with token metadata
#[derive(Debug)]
pub struct PoolInfo {
    pub baseline_state: BaselinePoolState,
    pub token0: Address,
    pub token1: Address,
    pub token0_decimals: u8,
    pub token1_decimals: u8,
}

/// Why the service failed.
#[derive(Debug)]
pub enum PoolManagerServiceError {
    /// Provider error
    Provider(String),
    /// Pool initialization error
    PoolInit(String),
    /// Pool factory error
    PoolFactory(String),
    /// Baseline pool factory error
    BaselineFactory(BaselinePoolFactoryError),
}

/// What the service asks to be done.
#[derive(Debug)]
pub enum ServiceAction {
    /// Send an update through the channel.
    Send(PoolUpdate),
    /// Follow the events of a pool.
    StartTracking(PoolId),
    /// Subscribe to the prices of a pool.
    SubscribeSlot0(PoolId),
    /// Unsubscribe from the prices of a pool.
    UnsubscribeSlot0(PoolId),
    /// Load a pool.
    LoadPool(PoolLoad),
    /// Hand the registry, which has changed, to the stream of events.
    ShareRegistry,
    /// Notify those who wait for a new block.
    Notify,
    /// See for each pool whether it needs more ticks, as of a block.
    CheckTicks(u64),
}

/// What the service does once it is set up.
#[derive(Debug)]
pub struct StartupPlan {
    /// the pools whose events are followed
    pub track: Vec<PoolId>,
    /// the pools whose prices are subscribed to, if there is a stream of them
    pub subscribe: Option<Vec<PoolId>>,
    /// the pools that are sent through the channel, if there is one
    pub send: Vec<(PoolId, BaselinePoolState)>,
}

/// What the service knows.
#[verifier::ext_equal]
pub struct ServiceView {
    pub registry: RegistryView,
    pub pool_manager: Address,
    pub tick_band: u16,
    pub is_bundle_mode: bool,
    pub pools: PoolsView,
    pub current_block: u64,
    pub auto_pool_creation: bool,
    pub has_slot0_stream: bool,
    pub channel_mode: bool,
    pub pending: Seq<PoolUpdate>,
}

/// The state of the service and what it asks to be done.
pub struct ServiceStep {
    pub view: ServiceView,
    pub actions: Seq<ServiceAction>,
}

/// A step that asks for nothing.
pub open spec fn quiet(view: ServiceView) -> ServiceStep {
    ServiceStep { view, actions: Seq::empty() }
}

/// Taking up a new pool.
pub open spec fn new_pool_step(
    view: ServiceView,
    key: PoolKey,
    block: u64,
    bundle_fee: u32,
    swap_fee: u32,
    protocol_fee: u32,
) -> ServiceStep {
    ServiceStep {
        view: ServiceView { registry: with_pool(view.registry, key), ..view },
        actions: seq![
            ServiceAction::LoadPool(
                load_of(key, INITIAL_TICKS_PER_SIDE, block, bundle_fee, swap_fee, protocol_fee),
            ),
            ServiceAction::ShareRegistry,
        ],
    }
}

/// How the service follows a pool from now on: its events by the identifier
/// that it goes by on chain, its prices by its public one.
pub open spec fn follow_actions(view: ServiceView, public: PoolId) -> Seq<ServiceAction> {
    if !view.registry.conversion_map.contains_key(public) {
        seq![ServiceAction::StartTracking(public)]
    } else if view.has_slot0_stream {
        seq![
            ServiceAction::StartTracking(view.registry.conversion_map[public]),
            ServiceAction::SubscribeSlot0(public),
        ]
    } else {
        seq![ServiceAction::StartTracking(view.registry.conversion_map[public])]
    }
}

/// An event that names a pool by the identifier that it goes by on chain, under
/// the public identifier that the pool is known by. Other updates stay.
pub open spec fn with_public_id(registry: RegistryView, update: PoolUpdate) -> PoolUpdate {
    match update {
        PoolUpdate::SwapEvent { pool_id, block, tx_index, log_index, event } => {
            PoolUpdate::SwapEvent {
                pool_id: public_id(registry, pool_id),
                block,
                tx_index,
                log_index,
                event,
            }
        },
        PoolUpdate::LiquidityEvent { pool_id, block, tx_index, log_index, event } => {
            PoolUpdate::LiquidityEvent {
                pool_id: public_id(registry, pool_id),
                block,
                tx_index,
                log_index,
                event,
            }
        },
        PoolUpdate::UpdatedSlot0 { pool_id, data } => PoolUpdate::UpdatedSlot0 {
            pool_id: public_id(registry, pool_id),
            data,
        },
        _ => update,
    }
}

/// Updates under the public identifiers of their pools.
pub open spec fn with_public_ids(
    registry: RegistryView,
    updates: Seq<PoolUpdate>,
) -> Seq<PoolUpdate> {
    Seq::new(updates.len(), |i: int| with_public_id(registry, updates[i]))
}

/// What the service makes of an update, beyond the state of pools.
pub open spec fn process_step(view: ServiceView, update: PoolUpdate) -> ServiceStep {
    match update {
        PoolUpdate::NewBlock(block) => quiet(ServiceView { current_block: block, ..view }),
        PoolUpdate::NewPool { pool_id, bundle_fee, swap_fee, protocol_fee, block, .. } => {
            if view.auto_pool_creation && view.registry.pools.contains_key(pool_id) {
                new_pool_step(
                    view,
                    view.registry.pools[pool_id],
                    block,
                    bundle_fee,
                    swap_fee,
                    protocol_fee,
                )
            } else {
                quiet(view)
            }
        },
        PoolUpdate::PoolConfigured { pool_key, bundle_fee, swap_fee, protocol_fee, block, .. } => {
            if view.auto_pool_creation {
                new_pool_step(view, pool_key, block, bundle_fee, swap_fee, protocol_fee)
            } else {
                quiet(view)
            }
        },
        PoolUpdate::PoolRemoved { pool_id, .. } => ServiceStep {
            view: ServiceView {
                registry: without_pool(view.registry, pool_id),
                pools: PoolsView { pools: view.pools.pools.remove(pool_id), ..view.pools },
                ..view
            },
            actions: if view.has_slot0_stream {
                seq![ServiceAction::UnsubscribeSlot0(pool_id)]
            } else {
                Seq::empty()
            },
        },
        PoolUpdate::FeeUpdate { .. } => quiet(
            ServiceView {
                pools: PoolsView { pools: pools_after(view.pools.pools, update), ..view.pools },
                ..view
            },
        ),
        PoolUpdate::Slot0Update(_) => quiet(
            ServiceView {
                pools: PoolsView { pools: pools_after(view.pools.pools, update), ..view.pools },
                ..view
            },
        ),
        PoolUpdate::NewPoolState { pool_id, .. } => ServiceStep {
            view,
            actions: follow_actions(view, public_id(view.registry, pool_id)),
        },
        _ => quiet(view),
    }
}

/// Updates processed in turn.
pub open spec fn process_all(view: ServiceView, updates: Seq<PoolUpdate>) -> ServiceStep
    decreases updates.len(),
{
    if updates.len() == 0 {
        quiet(view)
    } else {
        let front = process_all(view, updates.drop_last());
        let last = process_step(front.view, updates.last());
        ServiceStep { view: last.view, actions: front.actions + last.actions }
    }
}

/// Applying updates to the state of pools.
pub open spec fn apply_step(view: ServiceView, updates: Seq<PoolUpdate>) -> ServiceStep {
    ServiceStep {
        view: ServiceView { pools: after_updates(view.pools, updates), ..view },
        actions: if last_block(stable_sort(updates)) is Some {
            seq![ServiceAction::Notify]
        } else {
            Seq::empty()
        },
    }
}

/// A step followed by the processing of updates.
pub open spec fn and_process(step: ServiceStep, updates: Seq<PoolUpdate>) -> ServiceStep {
    let processed = process_all(step.view, updates);
    ServiceStep { view: processed.view, actions: step.actions + processed.actions }
}

/// Dispatching an update: through the channel, where there is one, or to the
/// pools. With a channel only new blocks, new pools, configured pools and
/// removed pools are processed here as well. A new block is never applied to the pools.
pub open spec fn dispatch_step(view: ServiceView, update: PoolUpdate) -> ServiceStep {
    if view.channel_mode {
        let inner = match update {
            PoolUpdate::NewBlock(block) => quiet(ServiceView { current_block: block, ..view }),
            PoolUpdate::NewPool { .. } => process_step(view, update),
            PoolUpdate::PoolConfigured { .. } => process_step(view, update),
            PoolUpdate::PoolRemoved { .. } => and_process(
                apply_step(view, seq![update]),
                seq![update],
            ),
            _ => quiet(view),
        };
        ServiceStep {
            view: inner.view,
            actions: seq![ServiceAction::Send(update)] + inner.actions,
        }
    } else {
        match update {
            PoolUpdate::NewBlock(block) => quiet(ServiceView { current_block: block, ..view }),
            _ => and_process(apply_step(view, seq![update]), seq![update]),
        }
    }
}

/// Updates dispatched in turn.
pub open spec fn dispatch_all(view: ServiceView, updates: Seq<PoolUpdate>) -> ServiceStep
    decreases updates.len(),
{
    if updates.len() == 0 {
        quiet(view)
    } else {
        let front = dispatch_all(view, updates.drop_last());
        let last = dispatch_step(front.view, updates.last());
        ServiceStep { view: last.view, actions: front.actions + last.actions }
    }
}

/// Taking in the updates of a block, under the public identifiers of their
/// pools: each is dispatched through the channel, or all are applied together,
/// processed, and the ticks of all pools checked.
pub open spec fn batch_step(view: ServiceView, events: Seq<PoolUpdate>) -> ServiceStep {
    let updates = with_public_ids(view.registry, events);
    if view.channel_mode {
        dispatch_all(view, updates)
    } else {
        let step = and_process(apply_step(view, updates), updates);
        ServiceStep {
            view: step.view,
            actions: step.actions.push(ServiceAction::CheckTicks(step.view.current_block)),
        }
    }
}

/// What happens once nothing is being loaded: the updates that were held back
/// are taken in.
pub open spec fn idle_step(view: ServiceView, processing: bool) -> ServiceStep {
    if processing {
        quiet(view)
    } else {
        batch_step(ServiceView { pending: Seq::empty(), ..view }, view.pending)
    }
}

/// What happens with the updates of a block: they are held back while
/// something is being loaded, and taken in otherwise.
pub open spec fn events_step(
    view: ServiceView,
    events: Seq<PoolUpdate>,
    processing: bool,
) -> ServiceStep {
    if processing {
        quiet(ServiceView { pending: view.pending + events, ..view })
    } else {
        batch_step(view, events)
    }
}

/// Updates that are held back come in once nothing is being loaded any more:
/// none is lost, and they are taken in as one batch, those that came first
/// before the others. A batch is applied in the order of transactions and logs,
/// whatever the blocks.
pub proof fn held_back_updates_come_in(
    view: ServiceView,
    first: Seq<PoolUpdate>,
    second: Seq<PoolUpdate>,
)
    requires
        view.pending.len() == 0,
    ensures
        idle_step(events_step(events_step(view, first, true).view, second, true).view, false)
            == batch_step(view, first + second),
{
    let held = events_step(events_step(view, first, true).view, second, true).view;
    assert(held.pending =~= first + second);
    assert(ServiceView { pending: Seq::empty(), ..held } =~= view);
}

/// With a channel, every update that is dispatched is sent.
pub proof fn channel_sends_all(view: ServiceView, updates: Seq<PoolUpdate>, i: int)
    requires
        view.channel_mode,
        0 <= i < updates.len(),
    ensures
        dispatch_all(view, updates).view.channel_mode,
        dispatch_all(view, updates).actions.contains(ServiceAction::Send(updates[i])),
    decreases updates.len(),
{
    let front = updates.drop_last();
    let before = dispatch_all(view, front);
    let last = dispatch_step(before.view, updates.last());
    let all = dispatch_all(view, updates).actions;
    channel_mode_stays(view, front);
    channel_mode_stays(view, updates);
    if i == updates.len() - 1 {
        assert(last.actions[0] == ServiceAction::Send(updates.last()));
        assert(all[before.actions.len() as int] == ServiceAction::Send(updates[i]));
    } else {
        channel_sends_all(view, front, i);
        let k = choose|k: int|
            0 <= k < before.actions.len() && before.actions[k] == ServiceAction::Send(front[i]);
        assert(all[k] == ServiceAction::Send(updates[i]));
    }
}

/// Processing does not change the mode of the service.
proof fn processing_keeps_mode(view: ServiceView, updates: Seq<PoolUpdate>)
    ensures
        process_all(view, updates).view.channel_mode == view.channel_mode,
    decreases updates.len(),
{
    if updates.len() != 0 {
        processing_keeps_mode(view, updates.drop_last());
    }
}

/// Dispatching does not change the mode of the service.
proof fn channel_mode_stays(view: ServiceView, updates: Seq<PoolUpdate>)
    ensures
        dispatch_all(view, updates).view.channel_mode == view.channel_mode,
    decreases updates.len(),
{
    if updates.len() != 0 {
        channel_mode_stays(view, updates.drop_last());
        let before = dispatch_all(view, updates.drop_last()).view;
        processing_keeps_mode(
            apply_step(before, seq![updates.last()]).view,
            seq![updates.last()],
        );
    }
}

/// The update that hands on what the factory has loaded.
pub fn factory_update(message: UpdateMessage) -> (r: PoolUpdate)
    ensures
        match message {
            UpdateMessage::NewTicks(pool_id, ticks, tick_bitmap) => r == (PoolUpdate::NewTicks {
                pool_id,
                ticks,
                tick_bitmap,
            }),
            UpdateMessage::NewPool(pool_id, state) => r == (PoolUpdate::NewPoolState {
                pool_id,
                state,
            }),
        },
{
    match message {
        UpdateMessage::NewTicks(pool_id, ticks, tick_bitmap) => PoolUpdate::NewTicks {
            pool_id,
            ticks,
            tick_bitmap,
        },
        UpdateMessage::NewPool(pool_id, state) => PoolUpdate::NewPoolState { pool_id, state },
    }
}

/// Service for managing Uniswap V4 pools with real-time block subscription
/// updates
pub struct PoolManagerService {
    pub factory: BaselinePoolFactory,
    pub pools: UniswapPools,
    pub current_block: u64,
    pub auto_pool_creation: bool,
    /// whether there is a stream of prices
    pub has_slot0_stream: bool,
    /// whether updates are sent through a channel instead of applied directly
    pub channel_mode: bool,
    // If we are loading more ticks at a block, we will queue up updates messages here
    // so that we don't hit any race conditions.
    pub pending_updates: Vec<PoolUpdate>,
}

impl View for PoolManagerService {
    type V = ServiceView;

    open spec fn view(&self) -> ServiceView {
        ServiceView {
            registry: self.factory.registry@,
            pool_manager: self.factory.pool_manager,
            tick_band: self.factory.tick_band,
            is_bundle_mode: self.factory.is_bundle_mode,
            pools: self.pools@,
            current_block: self.current_block,
            auto_pool_creation: self.auto_pool_creation,
            has_slot0_stream: self.has_slot0_stream,
            channel_mode: self.channel_mode,
            pending: self.pending_updates@,
        }
    }
}

impl PoolManagerService {
    /// Create a new PoolManagerService
    /// The pools are those that the factory has loaded. The service stands at
    /// the block that they were loaded for.
    pub fn new(
        factory: BaselinePoolFactory,
        pools: UniswapPools,
        auto_pool_creation: bool,
        has_slot0_stream: bool,
        channel_mode: bool,
    ) -> (r: PoolManagerService)
        ensures
            r@ == (ServiceView {
                registry: factory.registry@,
                pool_manager: factory.pool_manager,
                tick_band: factory.tick_band,
                is_bundle_mode: factory.is_bundle_mode,
                pools: pools@,
                current_block: pools@.block_number,
                auto_pool_creation,
                has_slot0_stream,
                channel_mode,
                pending: Seq::empty(),
            }),
            r.factory == factory,
    {
        let current_block: u64 = pools.get_block();
        PoolManagerService {
            factory,
            pools,
            current_block,
            auto_pool_creation,
            has_slot0_stream,
            channel_mode,
            pending_updates: Vec::new(),
        }
    }

    /// What is to be done once the service is set up: follow the events of all
    /// pools, subscribe to the prices of all of them, and send all of them
    /// through the channel.
    pub fn startup(&self) -> (r: StartupPlan)
        ensures
            r.track@ == Seq::new(
                self.factory.registry.conversion_map.order().len(),
                |i: int| self.factory.registry.conversion_map.order()[i].1,
            ),
            forall|id: PoolId| #[trigger]
                r.track@.contains(id) <==> is_private_id(self@.registry, id),
            r.subscribe is Some <==> self@.has_slot0_stream,
            r.subscribe matches Some(ids) ==> ids@.no_duplicates() && ids@.to_set()
                == self@.registry.conversion_map.dom(),
            !self@.channel_mode ==> r.send@.len() == 0,
            self@.channel_mode ==> r.send@.len() == self@.pools.pools.dom().len(),
            forall|i: int, j: int|
                0 <= i < j < r.send@.len() ==> (#[trigger] r.send@[i]).0 != (
                #[trigger] r.send@[j]).0,
            forall|i: int|
                0 <= i < r.send@.len() ==> self@.pools.pools.contains_key((#[trigger] r.send@[i]).0)
                    && r.send@[i].1@ == self@.pools.pools[r.send@[i].0],
    {
        let track: Vec<PoolId> = self.factory.get_uniswap_pool_ids();
        let subscribe: Option<Vec<PoolId>> = if self.has_slot0_stream {
            Some(self.factory.registry.public_keys())
        } else {
            None
        };
        let send: Vec<(PoolId, BaselinePoolState)> = if self.channel_mode {
            self.pools.get_pools()
        } else {
            Vec::new()
        };
        StartupPlan { track, subscribe, send }
    }

    /// Get all currently tracked pools
    pub fn get_pools(&self) -> (r: &UniswapPools)
        ensures
            r@ == self@.pools,
    {
        &self.pools
    }

    /// Get the current block number being processed
    pub fn current_block(&self) -> (r: u64)
        ensures
            r == self@.current_block,
    {
        self.current_block
    }

    /// Get all current pool keys
    pub fn current_pool_keys(&self) -> (r: Vec<PoolKey>)
        ensures
            r@ == Seq::new(
                self.factory.registry.pools.order().len(),
                |i: int| self.factory.registry.pools.order()[i].1,
            ),
            forall|key: PoolKey| #[trigger] r@.contains(key) <==> is_known_key(self@.registry, key),
    {
        self.factory.current_pool_keys()
    }

    /// Handle a new pool creation
    fn handle_new_pool(
        &mut self,
        pool_key: PoolKey,
        block_number: u64,
        bundle_fee: u32,
        swap_fee: u32,
        protocol_fee: u32,
    ) -> (r: PoolLoad)
        ensures
            final(self)@ == new_pool_step(
                old(self)@,
                pool_key,
                block_number,
                bundle_fee,
                swap_fee,
                protocol_fee,
            ).view,
            r == load_of(
                pool_key,
                INITIAL_TICKS_PER_SIDE,
                block_number,
                bundle_fee,
                swap_fee,
                protocol_fee,
            ),
    {
        self.factory.queue_pool_creation(
            pool_key,
            block_number,
            bundle_fee,
            swap_fee,
            protocol_fee,
        )
    }

    /// Takes over a price from the real-time feed.
    pub fn slot0_update(&mut self, update: Slot0Update)
        ensures
            final(self)@ == process_step(old(self)@, PoolUpdate::Slot0Update(update)).view,
    {
        self.pools.slot0_update(update);
    }

    /// Process a pool update event from the PoolUpdateProvider
    pub fn process_pool_update(&mut self, update: &PoolUpdate) -> (r: Vec<ServiceAction>)
        ensures
            (ServiceStep { view: final(self)@, actions: r@ }) == process_step(old(self)@, *update),
    {
        let mut actions: Vec<ServiceAction> = Vec::new();
        match update {
            PoolUpdate::NewBlock(block_number) => {
                self.current_block = *block_number;
            },
            PoolUpdate::NewPool { pool_id, bundle_fee, swap_fee, protocol_fee, block, .. } => {
                if self.auto_pool_creation {
                    // Reconstruct pool_key from the NewPool data
                    // We need to get the pool_key from the registry
                    let known: Option<PoolKey> = match self.factory.registry.get(pool_id) {
                        Some(key) => Some(*key),
                        None => None,
                    };
                    if let Some(pool_key) = known {
                        let load: PoolLoad = self.handle_new_pool(
                            pool_key,
                            *block,
                            *bundle_fee,
                            *swap_fee,
                            *protocol_fee,
                        );
                        actions.push(ServiceAction::LoadPool(load));
                        actions.push(ServiceAction::ShareRegistry);
                    }
                }
            },
            PoolUpdate::PoolConfigured {
                pool_key,
                bundle_fee,
                swap_fee,
                protocol_fee,
                block,
                ..
            } => {
                if self.auto_pool_creation {
                    let load: PoolLoad = self.handle_new_pool(
                        *pool_key,
                        *block,
                        *bundle_fee,
                        *swap_fee,
                        *protocol_fee,
                    );
                    actions.push(ServiceAction::LoadPool(load));
                    actions.push(ServiceAction::ShareRegistry);
                }
            },
            PoolUpdate::PoolRemoved { pool_id, .. } => {
                let _ = self.pools.remove(pool_id);
                self.factory.remove_pool_by_id(*pool_id);
                // Unsubscribe pool from slot0 stream (pool_id here is already angstrom ID)
                if self.has_slot0_stream {
                    actions.push(ServiceAction::UnsubscribeSlot0(*pool_id));
                }
            },
            PoolUpdate::FeeUpdate { pool_id, bundle_fee, swap_fee, protocol_fee, .. } => {
                self.pools.fee_update(pool_id, *bundle_fee, *swap_fee, *protocol_fee);
            },
            PoolUpdate::NewPoolState { pool_id, .. } => {
                // This comes from the factory - just track the pool
                let angstrom_pool_id: PoolId = self.factory.registry.to_public(pool_id);
                match self.factory.registry.private_key_from_public(&angstrom_pool_id) {
                    Some(uniswap_pool_id) => {
                        actions.push(ServiceAction::StartTracking(uniswap_pool_id));
                        // Subscribe new pool to slot0 stream (using angstrom ID)
                        if self.has_slot0_stream {
                            actions.push(ServiceAction::SubscribeSlot0(angstrom_pool_id));
                        }
                    },
                    None => {
                        actions.push(ServiceAction::StartTracking(angstrom_pool_id));
                    },
                }
            },
            PoolUpdate::Slot0Update(update) => {
                self.slot0_update(*update);
            },
            _ => {},
        }
        assert(actions@ =~= process_step(old(self)@, *update).actions);
        assert(self@ =~= process_step(old(self)@, *update).view);
        actions
    }

    /// Processes updates in turn.
    fn process_updates(&mut self, updates: &Vec<PoolUpdate>, actions: &mut Vec<ServiceAction>)
        ensures
            final(self)@ == process_all(old(self)@, updates@).view,
            final(actions)@ == old(actions)@ + process_all(old(self)@, updates@).actions,
    {
        let mut i: usize = 0;
        assert(actions@ =~= old(actions)@ + process_all(old(self)@, updates@.take(0)).actions);
        while i < updates.len()
            invariant
                i <= updates.len(),
                self@ == process_all(old(self)@, updates@.take(i as int)).view,
                actions@ == old(actions)@ + process_all(
                    old(self)@,
                    updates@.take(i as int),
                ).actions,
            decreases updates.len() - i,
        {
            assert(updates@.take(i + 1).drop_last() =~= updates@.take(i as int));
            let ghost front = process_all(old(self)@, updates@.take(i as int));
            let mut more: Vec<ServiceAction> = self.process_pool_update(&updates[i]);
            let ghost last = process_step(front.view, updates@[i as int]);
            actions.append(&mut more);
            assert(actions@ =~= old(actions)@ + (front.actions + last.actions));
            i = i + 1;
        }
        assert(updates@.take(i as int) =~= updates@);
    }

    /// Applies updates to the pools.
    fn apply_updates(&mut self, updates: &Vec<PoolUpdate>, actions: &mut Vec<ServiceAction>)
        ensures
            final(self)@ == apply_step(old(self)@, updates@).view,
            final(actions)@ == old(actions)@ + apply_step(old(self)@, updates@).actions,
    {
        let copies: Vec<PoolUpdate> = copy_updates(updates);
        proof {
            after_updates_of_copies(self@.pools, copies@, updates@);
        }
        if self.pools.update_pools(copies) {
            actions.push(ServiceAction::Notify);
        }
        assert(actions@ =~= old(actions)@ + apply_step(old(self)@, updates@).actions);
    }

    /// Dispatch an update either via channel or apply directly
    pub fn dispatch_update(&mut self, update: PoolUpdate) -> (r: Vec<ServiceAction>)
        ensures
            (ServiceStep { view: final(self)@, actions: r@ }) == dispatch_step(old(self)@, update),
    {
        let mut actions: Vec<ServiceAction> = Vec::new();
        let mut updates: Vec<PoolUpdate> = Vec::new();
        if self.channel_mode {
            // Always process certain critical updates internally even in channel mode
            match &update {
                PoolUpdate::NewBlock(block) => {
                    self.current_block = *block;
                },
                PoolUpdate::NewPool { .. } | PoolUpdate::PoolConfigured { .. } => {
                    // Process new pool to ensure it gets created in the factory
                    // This will trigger pool data loading and initialization
                    actions = self.process_pool_update(&update);
                },
                PoolUpdate::PoolRemoved { pool_id, block } => {
                    // Process pool removal to clean up internal state
                    updates.push(PoolUpdate::PoolRemoved { pool_id: *pool_id, block: *block });
                    assert(updates@ =~= seq![update]);
                    self.apply_updates(&updates, &mut actions);
                    self.process_updates(&updates, &mut actions);
                },
                _ => {
                    // Other updates are just forwarded via channel without
                    // internal processing
                },
            }
            // Channel mode: send the update before anything else is done
            actions.insert(0, ServiceAction::Send(update));
            assert(actions@ =~= dispatch_step(old(self)@, update).actions);
        } else {
            // Direct mode: apply the update
            match update {
                PoolUpdate::NewBlock(block) => {
                    self.current_block = block;
                },
                _ => {
                    // Let update_pools handle all other updates
                    updates.push(update);
                    assert(updates@ =~= seq![update]);
                    self.apply_updates(&updates, &mut actions);
                    self.process_updates(&updates, &mut actions);
                },
            }
            assert(actions@ =~= dispatch_step(old(self)@, update).actions);
        }
        assert(self@ =~= dispatch_step(old(self)@, update).view);
        actions
    }

    /// Dispatches updates in turn.
    fn dispatch_updates(&mut self, updates: Vec<PoolUpdate>) -> (r: Vec<ServiceAction>)
        ensures
            (ServiceStep { view: final(self)@, actions: r@ }) == dispatch_all(
                old(self)@,
                updates@,
            ),
    {
        let ghost all = updates@;
        let mut rest: Vec<PoolUpdate> = updates;
        let mut actions: Vec<ServiceAction> = Vec::new();
        while rest.len() > 0
            invariant
                rest@.len() <= all.len(),
                rest@ == all.skip(all.len() - rest@.len()),
                self@ == dispatch_all(old(self)@, all.take(all.len() - rest@.len())).view,
                actions@ == dispatch_all(old(self)@, all.take(all.len() - rest@.len())).actions,
            decreases rest.len(),
        {
            let ghost done = all.len() - rest@.len();
            let update: PoolUpdate = rest.remove(0);
            let mut more: Vec<ServiceAction> = self.dispatch_update(update);
            actions.append(&mut more);
            assert(all.take(done + 1).drop_last() =~= all.take(done));
            assert(rest@ =~= all.skip(done + 1));
        }
        assert(all.take(all.len() as int) =~= all);
        actions
    }

    /// Puts events under the public identifiers of their pools.
    fn to_public_ids(&self, events: Vec<PoolUpdate>) -> (r: Vec<PoolUpdate>)
        ensures
            r@ == with_public_ids(self@.registry, events@),
    {
        let mut updates: Vec<PoolUpdate> = events;
        let mut i: usize = 0;
        while i < updates.len()
            invariant
                i <= updates.len(),
                updates@.len() == events@.len(),
                forall|j: int|
                    0 <= j < i ==> #[trigger] updates@[j] == with_public_id(
                        self@.registry,
                        events@[j],
                    ),
                forall|j: int| i <= j < events@.len() ==> #[trigger] updates@[j] == events@[j],
            decreases updates.len() - i,
        {
            let converted: Option<PoolUpdate> = match &updates[i] {
                PoolUpdate::SwapEvent { pool_id, block, tx_index, log_index, event } => Some(
                    PoolUpdate::SwapEvent {
                        pool_id: self.factory.registry.to_public(pool_id),
                        block: *block,
                        tx_index: *tx_index,
                        log_index: *log_index,
                        event: *event,
                    },
                ),
                PoolUpdate::LiquidityEvent { pool_id, block, tx_index, log_index, event } => Some(
                    PoolUpdate::LiquidityEvent {
                        pool_id: self.factory.registry.to_public(pool_id),
                        block: *block,
                        tx_index: *tx_index,
                        log_index: *log_index,
                        event: *event,
                    },
                ),
                PoolUpdate::UpdatedSlot0 { pool_id, data } => Some(
                    PoolUpdate::UpdatedSlot0 {
                        pool_id: self.factory.registry.to_public(pool_id),
                        data: *data,
                    },
                ),
                _ => None,
            };
            if let Some(update) = converted {
                updates[i] = update;
            }
            i = i + 1;
        }
        assert(updates@ =~= with_public_ids(self@.registry, events@));
        updates
    }

    /// Takes in the updates of a block.
    fn take_in(&mut self, events: Vec<PoolUpdate>) -> (r: Vec<ServiceAction>)
        ensures
            (ServiceStep { view: final(self)@, actions: r@ }) == batch_step(old(self)@, events@),
    {
        let updates: Vec<PoolUpdate> = self.to_public_ids(events);
        if self.channel_mode {
            // Channel mode: dispatch each update
            self.dispatch_updates(updates)
        } else {
            // Direct mode: apply updates and check tick ranges
            let mut actions: Vec<ServiceAction> = Vec::new();
            self.apply_updates(&updates, &mut actions);
            self.process_updates(&updates, &mut actions);
            // Check tick ranges for all pools after updates
            actions.push(ServiceAction::CheckTicks(self.current_block));
            assert(actions@ =~= batch_step(old(self)@, events@).actions);
            actions
        }
    }

    /// Hands on what the factory has loaded.
    pub fn on_factory_update(&mut self, message: UpdateMessage) -> (r: Vec<ServiceAction>)
        ensures
            match message {
                UpdateMessage::NewTicks(pool_id, ticks, tick_bitmap) => (ServiceStep {
                    view: final(self)@,
                    actions: r@,
                }) == dispatch_step(
                    old(self)@,
                    PoolUpdate::NewTicks { pool_id, ticks, tick_bitmap },
                ),
                UpdateMessage::NewPool(pool_id, state) => (ServiceStep {
                    view: final(self)@,
                    actions: r@,
                }) == dispatch_step(old(self)@, PoolUpdate::NewPoolState { pool_id, state }),
            },
    {
        // Convert factory update to PoolUpdate and dispatch
        let update: PoolUpdate = factory_update(message);
        self.dispatch_update(update)
    }

    /// Takes in the updates that were held back, unless something is still
    /// being loaded.
    pub fn on_idle(&mut self, processing: bool) -> (r: Vec<ServiceAction>)
        ensures
            (ServiceStep { view: final(self)@, actions: r@ }) == idle_step(old(self)@, processing),
    {
        if processing {
            return Vec::new();
        }
        let mut updates: Vec<PoolUpdate> = Vec::new();
        std::mem::swap(&mut updates, &mut self.pending_updates);
        assert(self@ =~= ServiceView { pending: Seq::empty(), ..old(self)@ });
        self.take_in(updates)
    }

    /// Takes in the updates of a block, or holds them back while something is
    /// being loaded.
    pub fn on_events(&mut self, events: Vec<PoolUpdate>, processing: bool) -> (r: Vec<
        ServiceAction,
    >)
        ensures
            (ServiceStep { view: final(self)@, actions: r@ }) == events_step(
                old(self)@,
                events@,
                processing,
            ),
    {
        if processing {
            let mut more: Vec<PoolUpdate> = events;
            self.pending_updates.append(&mut more);
            assert(self@ =~= ServiceView {
                pending: old(self)@.pending + events@,
                ..old(self)@
            });
            return Vec::new();
        }
        self.take_in(events)
    }

    /// Dispatches prices from the real-time feed.
    pub fn on_slot0_updates(&mut self, updates: &Vec<Slot0Update>) -> (r: Vec<ServiceAction>)
        ensures
            (ServiceStep { view: final(self)@, actions: r@ }) == dispatch_all(
                old(self)@,
                slot0_updates(updates@),
            ),
    {
        let ghost all = slot0_updates(updates@);
        let mut actions: Vec<ServiceAction> = Vec::new();
        let mut i: usize = 0;
        while i < updates.len()
            invariant
                i <= updates.len(),
                all == slot0_updates(updates@),
                self@ == dispatch_all(old(self)@, all.take(i as int)).view,
                actions@ == dispatch_all(old(self)@, all.take(i as int)).actions,
            decreases updates.len() - i,
        {
            let mut more: Vec<ServiceAction> = self.dispatch_update(
                PoolUpdate::Slot0Update(updates[i]),
            );
            actions.append(&mut more);
            assert(all.take(i + 1).drop_last() =~= all.take(i as int));
            i = i + 1;
        }
        assert(all.take(i as int) =~= all);
        actions
    }
}

/// The updates of prices from the real-time feed.
pub open spec fn slot0_updates(updates: Seq<Slot0Update>) -> Seq<PoolUpdate> {
    Seq::new(updates.len(), |i: int| PoolUpdate::Slot0Update(updates[i]))
}

} // verus!
