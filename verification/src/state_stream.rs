//! The stream of updates, and what it does while a block is being processed.
use vstd::prelude::*;

use crate::pool_key::PoolKey;
use crate::pool_registry::{RegistryView, UniswapPoolRegistry};
use crate::pool_update_provider::{PoolUpdateProvider, ProviderView};
use crate::words::PoolId;

verus! {

/// The state of a stream of updates: the provider, unless it is out processing
/// a block, and the pools to be tracked or dropped once it is back.
#[verifier::ext_equal]
pub struct StateStreamView {
    pub provider: Option<ProviderView>,
    pub start: Seq<PoolId>,
    pub stop: Seq<PoolId>,
    /// a registry that came while the provider was out, with its pools in order
    pub registry: Option<(RegistryView, Seq<(PoolId, PoolKey)>)>,
}

/// The pools after some were added in turn.
pub open spec fn with_started(pools: Set<PoolId>, start: Seq<PoolId>) -> Set<PoolId>
    decreases start.len(),
{
    if start.len() == 0 {
        pools
    } else {
        with_started(pools, start.drop_last()).insert(start.last())
    }
}

/// The pools after some were taken out in turn.
pub open spec fn with_stopped(pools: Set<PoolId>, stop: Seq<PoolId>) -> Set<PoolId>
    decreases stop.len(),
{
    if stop.len() == 0 {
        pools
    } else {
        with_stopped(pools, stop.drop_last()).remove(stop.last())
    }
}

/// The pools after some were added are the old ones and the added ones.
pub proof fn started_pools(pools: Set<PoolId>, start: Seq<PoolId>, id: PoolId)
    ensures
        with_started(pools, start).contains(id) <==> pools.contains(id) || start.contains(id),
    decreases start.len(),
{
    if start.len() != 0 {
        let front = start.drop_last();
        started_pools(pools, front, id);
        assert(start[start.len() - 1] == start.last());
        if front.contains(id) {
            let k = choose|k: int| 0 <= k < front.len() && front[k] == id;
            assert(start[k] == id);
        }
        if start.contains(id) && id != start.last() {
            let k = choose|k: int| 0 <= k < start.len() && start[k] == id;
            assert(front[k] == id);
        }
    }
}

/// The pools after some were taken out are the old ones but those.
pub proof fn stopped_pools(pools: Set<PoolId>, stop: Seq<PoolId>, id: PoolId)
    ensures
        with_stopped(pools, stop).contains(id) <==> pools.contains(id) && !stop.contains(id),
    decreases stop.len(),
{
    if stop.len() != 0 {
        let front = stop.drop_last();
        stopped_pools(pools, front, id);
        assert(stop[stop.len() - 1] == stop.last());
        if front.contains(id) {
            let k = choose|k: int| 0 <= k < front.len() && front[k] == id;
            assert(stop[k] == id);
        }
        if stop.contains(id) && id != stop.last() {
            let k = choose|k: int| 0 <= k < stop.len() && stop[k] == id;
            assert(front[k] == id);
        }
    }
}

/// The provider with the pools that came up while it was out: first those to be
/// tracked are added, and then those to be dropped are taken out. It gets the
/// registry that came meanwhile, if one did.
pub open spec fn caught_up(
    provider: ProviderView,
    start: Seq<PoolId>,
    stop: Seq<PoolId>,
    registry: Option<(RegistryView, Seq<(PoolId, PoolKey)>)>,
) -> ProviderView {
    ProviderView {
        watched: with_stopped(with_started(provider.watched, start), stop),
        pool_registry: match registry {
            Some(new) => new.0,
            None => provider.pool_registry,
        },
        known_pools: match registry {
            Some(new) => new.1,
            None => provider.known_pools,
        },
        ..provider
    }
}

/// A provider that comes back tracks the pools that it tracked and those that were to be
/// tracked meanwhile, but none of those that were to be dropped. It has the registry
/// that came meanwhile, with the pools of it, or else its own; nothing else changes.
pub proof fn provider_catches_up(
    provider: ProviderView,
    start: Seq<PoolId>,
    stop: Seq<PoolId>,
    registry: Option<(RegistryView, Seq<(PoolId, PoolKey)>)>,
    id: PoolId,
)
    ensures
        ({
            let after = caught_up(provider, start, stop, registry);
            &&& after.watched.contains(id) <==> (provider.watched.contains(id) || start.contains(
                id,
            )) && !stop.contains(id)
            &&& registry matches Some((new, known)) ==> after.pool_registry == new
                && after.known_pools == known
            &&& registry is None ==> after.pool_registry == provider.pool_registry
                && after.known_pools == provider.known_pools
            &&& after.pool_manager == provider.pool_manager
            &&& after.controller_address == provider.controller_address
            &&& after.angstrom_address == provider.angstrom_address
            &&& after.history == provider.history
            &&& after.current_block == provider.current_block
        }),
{
    started_pools(provider.watched, start, id);
    stopped_pools(with_started(provider.watched, start), stop, id);
}

/// A stream of updates.
#[derive(Debug)]
pub struct StateStream {
    pub update_provider: Option<PoolUpdateProvider>,
    pub start_tracking_pools: Vec<PoolId>,
    pub stop_tracking_pools: Vec<PoolId>,
    pub new_registry: Option<UniswapPoolRegistry>,
}

impl View for StateStream {
    type V = StateStreamView;

    open spec fn view(&self) -> StateStreamView {
        StateStreamView {
            provider: match self.update_provider {
                Some(provider) => Some(provider@),
                None => None,
            },
            start: self.start_tracking_pools@,
            stop: self.stop_tracking_pools@,
            registry: match self.new_registry {
                Some(registry) => Some((registry@, registry.pools.order())),
                None => None,
            },
        }
    }
}

impl StateStream {
    /// A stream of the updates of a provider.
    pub fn new(update_provider: PoolUpdateProvider) -> (r: StateStream)
        ensures
            r@ == (StateStreamView {
                provider: Some(update_provider@),
                start: Seq::empty(),
                stop: Seq::empty(),
                registry: None,
            }),
    {
        StateStream {
            update_provider: Some(update_provider),
            start_tracking_pools: Vec::new(),
            stop_tracking_pools: Vec::new(),
            new_registry: None,
        }
    }

    /// Stops tracking a pool, as soon as the provider is back.
    pub fn stop_tracking_pool(&mut self, pool_id: PoolId)
        ensures
            final(self)@ == match old(self)@.provider {
                Some(provider) => StateStreamView {
                    provider: Some(
                        ProviderView { watched: provider.watched.remove(pool_id), ..provider },
                    ),
                    ..old(self)@
                },
                None => StateStreamView { stop: old(self)@.stop.push(pool_id), ..old(self)@ },
            },
    {
        match self.update_provider.take() {
            Some(mut update_provider) => {
                update_provider.remove_pool(pool_id);
                self.update_provider = Some(update_provider);
            },
            None => {
                self.stop_tracking_pools.push(pool_id);
            },
        }
    }

    /// Starts tracking a pool, as soon as the provider is back.
    pub fn start_tracking_pool(&mut self, pool_id: PoolId)
        ensures
            final(self)@ == match old(self)@.provider {
                Some(provider) => StateStreamView {
                    provider: Some(
                        ProviderView { watched: provider.watched.insert(pool_id), ..provider },
                    ),
                    ..old(self)@
                },
                None => StateStreamView { start: old(self)@.start.push(pool_id), ..old(self)@ },
            },
    {
        match self.update_provider.take() {
            Some(mut update_provider) => {
                update_provider.add_pool(pool_id);
                self.update_provider = Some(update_provider);
            },
            None => {
                self.start_tracking_pools.push(pool_id);
            },
        }
    }

    /// Sets the registry of the provider, at once or as soon as it is back.
    pub fn set_pool_registry(&mut self, pool_registry: UniswapPoolRegistry)
        ensures
            final(self)@ == match old(self)@.provider {
                Some(provider) => StateStreamView {
                    provider: Some(
                        ProviderView {
                            pool_registry: pool_registry@,
                            known_pools: pool_registry.pools.order(),
                            ..provider
                        },
                    ),
                    ..old(self)@
                },
                None => StateStreamView {
                    registry: Some((pool_registry@, pool_registry.pools.order())),
                    ..old(self)@
                },
            },
    {
        match self.update_provider.take() {
            Some(mut update_provider) => {
                update_provider.pool_registry = pool_registry;
                self.update_provider = Some(update_provider);
            },
            None => {
                self.new_registry = Some(pool_registry);
            },
        }
    }

    /// Takes the provider back after it processed a block.
    pub fn give_back(&mut self, provider: PoolUpdateProvider)
        ensures
            final(self)@ == (StateStreamView { provider: Some(provider@), ..old(self)@ }),
    {
        self.update_provider = Some(provider);
    }

    /// Lets the provider, which is back, catch up with the pools that came up
    /// while it was out.
    pub fn catch_up(&mut self)
        requires
            old(self)@.provider is Some,
        ensures
            final(self)@ == (StateStreamView {
                provider: Some(
                    caught_up(
                        old(self)@.provider->0,
                        old(self)@.start,
                        old(self)@.stop,
                        old(self)@.registry,
                    ),
                ),
                start: Seq::empty(),
                stop: Seq::empty(),
                registry: None,
            }),
    {
        let mut start: Vec<PoolId> = Vec::new();
        std::mem::swap(&mut start, &mut self.start_tracking_pools);
        let mut stop: Vec<PoolId> = Vec::new();
        std::mem::swap(&mut stop, &mut self.stop_tracking_pools);
        match self.update_provider.take() {
            Some(mut updater) => {
                let ghost before = updater@;
                let mut i: usize = 0;
                while i < start.len()
                    invariant
                        i <= start.len(),
                        updater@ == (ProviderView {
                            watched: with_started(before.watched, start@.take(i as int)),
                            ..before
                        }),
                    decreases start.len() - i,
                {
                    assert(start@.take(i + 1).drop_last() =~= start@.take(i as int));
                    updater.add_pool(start[i]);
                    i = i + 1;
                }
                assert(start@.take(i as int) =~= start@);
                let ghost middle = updater@;
                let mut k: usize = 0;
                while k < stop.len()
                    invariant
                        k <= stop.len(),
                        updater@ == (ProviderView {
                            watched: with_stopped(middle.watched, stop@.take(k as int)),
                            ..middle
                        }),
                    decreases stop.len() - k,
                {
                    assert(stop@.take(k + 1).drop_last() =~= stop@.take(k as int));
                    updater.remove_pool(stop[k]);
                    k = k + 1;
                }
                assert(stop@.take(k as int) =~= stop@);
                if let Some(pool_registry) = self.new_registry.take() {
                    updater.pool_registry = pool_registry;
                }
                self.update_provider = Some(updater);
            },
            None => {
                assert(false);
            },
        }
        assert(self@.start =~= Seq::<PoolId>::empty());
        assert(self@.stop =~= Seq::<PoolId>::empty());
    }

    /// Sends the provider out to process a block.
    pub fn take_provider(&mut self) -> (r: Option<PoolUpdateProvider>)
        ensures
            final(self)@ == (StateStreamView { provider: None, ..old(self)@ }),
            match r {
                Some(provider) => old(self)@.provider == Some(provider@),
                None => old(self)@.provider is None,
            },
    {
        self.update_provider.take()
    }
}

} // verus!
