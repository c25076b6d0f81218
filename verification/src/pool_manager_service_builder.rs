//! Setting up the service.
use vstd::prelude::*;

use crate::baseline_pool_factory::{
    load_of, BaselinePoolFactory, PoolLoad, INITIAL_TICKS_PER_SIDE,
};
use crate::pool_key::{pool_id_of, PoolKey, PoolKeyWithFees};
use crate::pool_manager_service::{PoolManagerService, ServiceView};
use crate::pool_registry::{
    empty_registry, ids_tell_apart, is_known_key, registry_knows_its_keys, with_pools,
    UniswapPoolRegistry,
};
use crate::shared_pools::UniswapPools;
use crate::words::{Address, PoolId};

verus! {

/// Builder for creating a configured PoolManagerService
#[derive(Debug)]
pub struct PoolManagerServiceBuilder {
    // Required fields
    pub angstrom_address: Address,
    pub controller_address: Address,
    pub pool_manager_address: Address,
    pub deploy_block: u64,
    // Optional fields with defaults
    pub is_bundle_mode: bool,
    pub initial_tick_range_size: Option<u16>,
    pub fixed_pools: Option<Vec<PoolKey>>,
    pub auto_pool_creation: bool,
    pub has_event_stream: bool,
    pub has_slot0_stream: bool,
    pub channel_mode: bool,
}

/// Pools whose fees are not known yet.
pub open spec fn keys_without_fees(keys: Seq<PoolKey>) -> Seq<PoolKeyWithFees> {
    Seq::new(
        keys.len(),
        |i: int|
            PoolKeyWithFees { pool_key: keys[i], bundle_fee: 0, swap_fee: 0, protocol_fee: 0 },
    )
}

/// The pools to start with: the fixed ones, or else those that were discovered.
pub open spec fn initial_pools_of(
    builder: PoolManagerServiceBuilder,
    discovered: Seq<PoolKeyWithFees>,
) -> Seq<PoolKeyWithFees> {
    match builder.fixed_pools {
        Some(keys) => keys_without_fees(keys@),
        None => discovered,
    }
}

/// The keys of pools.
pub open spec fn keys_of(pools: Seq<PoolKeyWithFees>) -> Seq<PoolKey> {
    Seq::new(pools.len(), |i: int| pools[i].pool_key)
}

/// How many ticks are loaded on each side of a pool.
pub open spec fn tick_band_of(builder: PoolManagerServiceBuilder) -> u16 {
    match builder.initial_tick_range_size {
        Some(size) => size,
        None => INITIAL_TICKS_PER_SIDE,
    }
}

/// The requests that load pools.
pub open spec fn loads_of(pools: Seq<PoolKeyWithFees>, tick_band: u16, block: u64) -> Seq<
    PoolLoad,
> {
    Seq::new(
        pools.len(),
        |i: int|
            load_of(
                pools[i].pool_key,
                tick_band,
                block,
                pools[i].bundle_fee,
                pools[i].swap_fee,
                pools[i].protocol_fee,
            ),
    )
}

impl PoolManagerServiceBuilder {
    /// Create a new builder with required parameters
    pub fn new(
        angstrom_address: Address,
        controller_address: Address,
        pool_manager_address: Address,
        deploy_block: u64,
    ) -> (r: PoolManagerServiceBuilder)
        ensures
            r == (PoolManagerServiceBuilder {
                angstrom_address,
                controller_address,
                pool_manager_address,
                deploy_block,
                is_bundle_mode: false,
                initial_tick_range_size: None,
                fixed_pools: None,
                auto_pool_creation: true,
                has_event_stream: false,
                has_slot0_stream: false,
                channel_mode: false,
            }),
    {
        PoolManagerServiceBuilder {
            angstrom_address,
            controller_address,
            pool_manager_address,
            deploy_block,
            is_bundle_mode: false,
            initial_tick_range_size: None,
            fixed_pools: None,
            auto_pool_creation: true,
            has_event_stream: false,
            has_slot0_stream: false,
            channel_mode: false,
        }
    }

    /// Set the event stream for pool updates
    pub fn with_event_stream(self) -> (r: PoolManagerServiceBuilder)
        ensures
            r == (PoolManagerServiceBuilder { has_event_stream: true, ..self }),
    {
        let mut builder: PoolManagerServiceBuilder = self;
        builder.has_event_stream = true;
        builder
    }

    /// Set the initial tick range size for loading pool data
    pub fn with_initial_tick_range_size(self, size: u16) -> (r: PoolManagerServiceBuilder)
        ensures
            r == (PoolManagerServiceBuilder { initial_tick_range_size: Some(size), ..self }),
    {
        let mut builder: PoolManagerServiceBuilder = self;
        builder.initial_tick_range_size = Some(size);
        builder
    }

    /// Set a fixed set of pools to load (disables auto-discovery)
    pub fn with_fixed_pools(self, pools: Vec<PoolKey>) -> (r: PoolManagerServiceBuilder)
        ensures
            r == (PoolManagerServiceBuilder { fixed_pools: Some(pools), ..self }),
    {
        let mut builder: PoolManagerServiceBuilder = self;
        builder.fixed_pools = Some(pools);
        builder
    }

    /// Enable or disable automatic pool creation
    pub fn with_auto_pool_creation(self, enabled: bool) -> (r: PoolManagerServiceBuilder)
        ensures
            r == (PoolManagerServiceBuilder { auto_pool_creation: enabled, ..self }),
    {
        let mut builder: PoolManagerServiceBuilder = self;
        builder.auto_pool_creation = enabled;
        builder
    }

    /// Set the slot0 update stream
    pub fn with_slot0_stream(self) -> (r: PoolManagerServiceBuilder)
        ensures
            r == (PoolManagerServiceBuilder { has_slot0_stream: true, ..self }),
    {
        let mut builder: PoolManagerServiceBuilder = self;
        builder.has_slot0_stream = true;
        builder
    }

    /// Set bundle mode
    pub fn with_bundle_mode(self, enabled: bool) -> (r: PoolManagerServiceBuilder)
        ensures
            r == (PoolManagerServiceBuilder { is_bundle_mode: enabled, ..self }),
    {
        let mut builder: PoolManagerServiceBuilder = self;
        builder.is_bundle_mode = enabled;
        builder
    }

    /// Send updates through a channel instead of applying them
    pub fn with_channel(self) -> (r: PoolManagerServiceBuilder)
        ensures
            r == (PoolManagerServiceBuilder { channel_mode: true, ..self }),
    {
        let mut builder: PoolManagerServiceBuilder = self;
        builder.channel_mode = true;
        builder
    }

    /// The factory that the pools are loaded with.
    pub fn factory(&self) -> (r: BaselinePoolFactory)
        ensures
            r.registry@ == empty_registry(),
            r.pool_manager == self.pool_manager_address,
            r.tick_band == tick_band_of(*self),
            r.is_bundle_mode == self.is_bundle_mode,
    {
        BaselinePoolFactory::new(
            UniswapPoolRegistry::new(),
            self.pool_manager_address,
            self.initial_tick_range_size,
            self.is_bundle_mode,
        )
    }

    /// Whether the pools to start with are those that the controller has
    /// configured: a fixed set of pools disables discovery.
    pub fn discovers_pools(&self) -> (r: bool)
        ensures
            r == (self.fixed_pools is None),
    {
        self.fixed_pools.is_none()
    }

    /// The pools to start with: the fixed ones, or else those that were
    /// discovered.
    pub fn initial_pools(&self, discovered: &Vec<PoolKeyWithFees>) -> (r: Vec<PoolKeyWithFees>)
        ensures
            r@ == initial_pools_of(*self, discovered@),
    {
        let keys: &Vec<PoolKey> = match &self.fixed_pools {
            Some(keys) => keys,
            None => {
                return discovered.clone();
            },
        };
        let mut pools: Vec<PoolKeyWithFees> = Vec::new();
        let mut i: usize = 0;
        while i < keys.len()
            invariant
                i <= keys.len(),
                pools@ == keys_without_fees(keys@.take(i as int)),
            decreases keys.len() - i,
        {
            pools.push(
                PoolKeyWithFees {
                    pool_key: keys[i],
                    bundle_fee: 0,
                    swap_fee: 0,
                    protocol_fee: 0,
                },
            );
            i = i + 1;
            assert(pools@ =~= keys_without_fees(keys@.take(i as int)));
        }
        assert(keys@.take(i as int) =~= keys@);
        pools
    }

    /// The requests that load the pools to start with, each with the ticks that
    /// the builder is set to.
    pub fn initial_loads(&self, discovered: &Vec<PoolKeyWithFees>, block: u64) -> (r: Vec<PoolLoad>)
        ensures
            r@ == loads_of(
                initial_pools_of(*self, discovered@),
                tick_band_of(*self),
                block,
            ),
    {
        let pools: Vec<PoolKeyWithFees> = self.initial_pools(discovered);
        let mut factory: BaselinePoolFactory = self.factory();
        let mut loads: Vec<PoolLoad> = Vec::new();
        let mut i: usize = 0;
        while i < pools.len()
            invariant
                i <= pools.len(),
                factory.tick_band == tick_band_of(*self),
                loads@ == loads_of(pools@.take(i as int), tick_band_of(*self), block),
            decreases pools.len() - i,
        {
            loads.push(
                factory.create_new_baseline_angstrom_pool(
                    pools[i].pool_key,
                    block,
                    pools[i].bundle_fee,
                    pools[i].swap_fee,
                    pools[i].protocol_fee,
                ),
            );
            i = i + 1;
            assert(loads@ =~= loads_of(pools@.take(i as int), tick_band_of(*self), block));
        }
        assert(pools@.take(i as int) =~= pools@);
        loads
    }

    /// Build the PoolManagerService with the configured options
    /// Its registry holds the pools to start with and no other: the fixed ones,
    /// or else those that were discovered. The service stands at the block that
    /// the pools were loaded for.
    pub fn build(self, discovered: &Vec<PoolKeyWithFees>, pools: UniswapPools) -> (r:
        PoolManagerService)
        ensures
            r@ == (ServiceView {
                registry: with_pools(
                    empty_registry(),
                    keys_of(initial_pools_of(self, discovered@)),
                ),
                pool_manager: self.pool_manager_address,
                tick_band: tick_band_of(self),
                is_bundle_mode: self.is_bundle_mode,
                pools: pools@,
                current_block: pools@.block_number,
                auto_pool_creation: self.auto_pool_creation,
                has_slot0_stream: self.has_slot0_stream,
                channel_mode: self.channel_mode,
                pending: Seq::empty(),
            }),
            ids_tell_apart(keys_of(initial_pools_of(self, discovered@))) ==> forall|key: PoolKey|
                #[trigger]
                is_known_key(r@.registry, key) <==> keys_of(
                    initial_pools_of(self, discovered@),
                ).contains(key),
    {
        let initial: Vec<PoolKeyWithFees> = self.initial_pools(discovered);
        let mut factory: BaselinePoolFactory = self.factory();
        let mut i: usize = 0;
        while i < initial.len()
            invariant
                i <= initial.len(),
                factory.registry@ == with_pools(
                    empty_registry(),
                    keys_of(initial@.take(i as int)),
                ),
                factory.pool_manager == self.pool_manager_address,
                factory.tick_band == tick_band_of(self),
                factory.is_bundle_mode == self.is_bundle_mode,
            decreases initial.len() - i,
        {
            proof {
                let front = keys_of(initial@.take(i as int));
                let all = keys_of(initial@.take(i + 1));
                assert(all.drop_last() =~= front);
                assert(all.last() == initial@[i as int].pool_key);
            }
            factory.registry.add_new_pool(initial[i].pool_key);
            i = i + 1;
        }
        proof {
            assert(initial@.take(i as int) =~= initial@);
            if ids_tell_apart(keys_of(initial@)) {
                registry_knows_its_keys(keys_of(initial@));
            }
        }
        PoolManagerService::new(
            factory,
            pools,
            self.auto_pool_creation,
            self.has_slot0_stream,
            self.channel_mode,
        )
    }
}

/// With fixed pools, the keys of the service are the fixed ones and no other,
/// whatever was discovered.
pub proof fn fixed_pools_are_the_only_ones(
    builder: PoolManagerServiceBuilder,
    keys: Vec<PoolKey>,
    discovered: Seq<PoolKeyWithFees>,
)
    requires
        builder.fixed_pools == Some(keys),
        ids_tell_apart(keys@),
    ensures
        forall|key: PoolKey| #[trigger]
            is_known_key(
                with_pools(empty_registry(), keys_of(initial_pools_of(builder, discovered))),
                key,
            ) <==> keys@.contains(key),
{
    assert(keys_of(keys_without_fees(keys@)) =~= keys@);
    registry_knows_its_keys(keys@);
}

/// Every pool to start with is loaded, in its turn: by both of its identifiers, with its
/// own fees, as of the block, and with the ticks on each side that the builder was given,
/// or four hundred. The pools are the fixed ones, whose fees are not known, or those that
/// were discovered, as they are.
pub proof fn every_initial_pool_is_loaded(
    builder: PoolManagerServiceBuilder,
    discovered: Seq<PoolKeyWithFees>,
    block: u64,
    i: int,
)
    ensures
        ({
            let pools = initial_pools_of(builder, discovered);
            let band = tick_band_of(builder);
            let loads = loads_of(pools, band, block);
            &&& builder.fixed_pools matches Some(keys) ==> pools.len() == keys@.len() && (0 <= i
                < keys@.len() ==> pools[i] == (PoolKeyWithFees {
                pool_key: keys@[i],
                bundle_fee: 0,
                swap_fee: 0,
                protocol_fee: 0,
            }))
            &&& builder.fixed_pools is None ==> pools == discovered
            &&& builder.initial_tick_range_size matches Some(size) ==> band == size
            &&& builder.initial_tick_range_size is None ==> band == 400
            &&& loads.len() == pools.len()
            &&& keys_of(pools).len() == pools.len()
            &&& 0 <= i < pools.len() ==> keys_of(pools)[i] == pools[i].pool_key && loads[i]
                == (PoolLoad {
                pool_id: pool_id_of(pools[i].pool_key),
                internal_pool_id: pool_id_of(PoolKey { fee: 0x80_0000, ..pools[i].pool_key }),
                tick_band: band,
                block,
                bundle_fee: pools[i].bundle_fee,
                swap_fee: pools[i].swap_fee,
                protocol_fee: pools[i].protocol_fee,
            })
        }),
{
}

/// A no-op event stream implementation for when no event stream is needed
#[derive(Clone, Copy, Debug, PartialEq, Eq, Structural)]
pub struct NoOpEventStream;

impl NoOpEventStream {
    /// Does nothing.
    pub fn start_tracking_pool(&mut self, _pool_id: PoolId)
        ensures
            *final(self) == *old(self),
    {
    }

    /// Does nothing.
    pub fn stop_tracking_pool(&mut self, _pool_id: PoolId)
        ensures
            *final(self) == *old(self),
    {
    }

    /// Does nothing.
    pub fn set_pool_registry(&mut self, _pool_registry: UniswapPoolRegistry)
        ensures
            *final(self) == *old(self),
    {
    }
}

impl Default for NoOpEventStream {
    fn default() -> (r: NoOpEventStream)
        ensures
            r == NoOpEventStream,
    {
        NoOpEventStream
    }
}

} // verus!
