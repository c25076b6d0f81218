//! What a batch of updates does to the liquidity of one pool.
use vstd::prelude::*;

use crate::events::{batch_updates_of, BatchUpdate, Log, Transaction};
use crate::liquidity_base::{liquidity_fits, with_liquidity, LiquidityView};
use crate::pool_manager_service::{
    and_process, apply_step, batch_step, process_all, with_public_id, with_public_ids, ServiceView,
};
use crate::pool_registry::{public_id, RegistryView};
use crate::pool_state::PoolStateView;
use crate::pool_update_provider::{
    all_block_updates, all_chunk_updates, all_controller_updates, all_liquidity_updates,
    all_swap_updates, all_transaction_updates, block_for, block_updates,
    controller_updates, fee_change, fee_changes, liquidity_updates, swap_updates,
    transaction_updates, BackfillChunk, ProviderView,
};
use crate::shared_pools::{pools_after, pools_after_all};
use crate::sorting::{
    insert_sorted, is_sorted, stable_sort, stable_sort_permutes, stable_sort_sorts,
};
use crate::updates::{key_before, sort_key, PoolUpdate};
use crate::words::{Address, PoolId};

verus! {

/// Whether the events of a pool reach it: the pool is watched by the identifier
/// that it goes by on chain, which leads to its public one, and no other that is
/// watched does.
pub open spec fn is_followed(
    registry: RegistryView,
    watched: Set<PoolId>,
    public: PoolId,
    id: PoolId,
) -> bool {
    &&& watched.contains(id)
    &&& forall|x: PoolId| #[trigger]
        watched.contains(x) ==> (public_id(registry, x) == public <==> x == id)
}

/// What happens on chain in a block: the logs of the pool manager and of the
/// controller, and the transactions.
pub struct ChainBlock {
    pub number: u64,
    pub swap_logs: Seq<Log>,
    pub modify_logs: Seq<Log>,
    pub controller_logs: Seq<Log>,
    pub transactions: Seq<Transaction>,
}

/// The events of a pool in a block, in the order of the block.
pub open spec fn events_on_chain(block: ChainBlock, id: PoolId) -> Seq<PoolUpdate> {
    stable_sort(
        all_swap_updates(set![id], block.swap_logs, Some(block.number)) + all_liquidity_updates(
            set![id],
            block.modify_logs,
            Some(block.number),
        ),
    )
}

/// The liquidity of a pool after an event: a swap leaves the price, the tick and
/// the liquidity that its log gives, a price that was queried again those that
/// were found, and a change of liquidity adds to that between its ticks, where
/// the numbers fit.
pub open spec fn chain_step(truth: LiquidityView, event: PoolUpdate) -> LiquidityView {
    match event {
        PoolUpdate::SwapEvent { event, .. } => LiquidityView {
            tick: event.tick,
            sqrt_price: event.sqrt_price_x96@,
            liquidity: event.liquidity,
            ..truth
        },
        PoolUpdate::UpdatedSlot0 { data, .. } => LiquidityView {
            tick: data.tick,
            sqrt_price: data.sqrt_price_x96@,
            liquidity: data.liquidity,
            ..truth
        },
        PoolUpdate::LiquidityEvent { event, .. } => if liquidity_fits(
            truth,
            event.tick_lower,
            event.tick_upper,
            event.liquidity_delta@,
        ) {
            with_liquidity(truth, event.tick_lower, event.tick_upper, event.liquidity_delta@)
        } else {
            truth
        },
        _ => truth,
    }
}

/// The liquidity of a pool after events in turn.
pub open spec fn chain_after(truth: LiquidityView, events: Seq<PoolUpdate>) -> LiquidityView
    decreases events.len(),
{
    if events.len() == 0 {
        truth
    } else {
        chain_step(chain_after(truth, events.drop_last()), events.last())
    }
}

/// Events in turn, some first and then the others.
pub proof fn chain_after_concat(truth: LiquidityView, a: Seq<PoolUpdate>, b: Seq<PoolUpdate>)
    ensures
        chain_after(truth, a + b) == chain_after(chain_after(truth, a), b),
    decreases b.len(),
{
    if b.len() == 0 {
        assert(a + b =~= a);
    } else {
        assert((a + b).drop_last() =~= a + b.drop_last());
        chain_after_concat(truth, a, b.drop_last());
    }
}

/// Whether an update is an event of the pool with a public identifier.
pub open spec fn is_event_of(update: PoolUpdate, registry: RegistryView, public: PoolId) -> bool {
    match update {
        PoolUpdate::SwapEvent { pool_id, .. } => public_id(registry, pool_id) == public,
        PoolUpdate::LiquidityEvent { pool_id, .. } => public_id(registry, pool_id) == public,
        PoolUpdate::UpdatedSlot0 { pool_id, .. } => public_id(registry, pool_id) == public,
        _ => false,
    }
}

/// The events of a pool among updates.
pub open spec fn events_of(
    updates: Seq<PoolUpdate>,
    registry: RegistryView,
    public: PoolId,
) -> Seq<PoolUpdate>
    decreases updates.len(),
{
    if updates.len() == 0 {
        Seq::empty()
    } else if is_event_of(updates.last(), registry, public) {
        events_of(updates.drop_last(), registry, public).push(updates.last())
    } else {
        events_of(updates.drop_last(), registry, public)
    }
}

/// Whether an update is one that the provider makes of a block or of a
/// reorganization.
pub open spec fn is_of_provider(update: PoolUpdate) -> bool {
    match update {
        PoolUpdate::SwapEvent { .. } => true,
        PoolUpdate::LiquidityEvent { .. } => true,
        PoolUpdate::UpdatedSlot0 { .. } => true,
        PoolUpdate::FeeUpdate { .. } => true,
        PoolUpdate::PoolConfigured { .. } => true,
        PoolUpdate::PoolRemoved { .. } => true,
        PoolUpdate::Reorg { .. } => true,
        _ => false,
    }
}

/// Whether updates are ones that the provider makes.
pub open spec fn are_of_provider(updates: Seq<PoolUpdate>) -> bool {
    forall|i: int| 0 <= i < updates.len() ==> is_of_provider(#[trigger] updates[i])
}

/// The events among updates and more updates.
pub proof fn events_of_concat(
    a: Seq<PoolUpdate>,
    b: Seq<PoolUpdate>,
    registry: RegistryView,
    public: PoolId,
)
    ensures
        events_of(a + b, registry, public) == events_of(a, registry, public) + events_of(
            b,
            registry,
            public,
        ),
    decreases b.len(),
{
    let whole = events_of(a + b, registry, public);
    let parts = events_of(a, registry, public) + events_of(b, registry, public);
    if b.len() == 0 {
        assert(a + b =~= a);
        assert(parts =~= events_of(a, registry, public));
    } else {
        assert((a + b).drop_last() =~= a + b.drop_last());
        events_of_concat(a, b.drop_last(), registry, public);
        assert(whole =~= parts);
    }
}

/// Updates of which none is an event of a pool.
pub proof fn no_events_among(updates: Seq<PoolUpdate>, registry: RegistryView, public: PoolId)
    requires
        forall|i: int|
            0 <= i < updates.len() ==> !is_event_of(#[trigger] updates[i], registry, public),
    ensures
        events_of(updates, registry, public) == Seq::<PoolUpdate>::empty(),
    decreases updates.len(),
{
    if updates.len() != 0 {
        assert(!is_event_of(updates[updates.len() - 1], registry, public));
        no_events_among(updates.drop_last(), registry, public);
    }
}

/// The events of a followed pool among those of swap logs are those of its identifier on chain.
proof fn swaps_of_logs(
    registry: RegistryView,
    watched: Set<PoolId>,
    logs: Seq<Log>,
    block: Option<u64>,
    public: PoolId,
    id: PoolId,
)
    requires
        is_followed(registry, watched, public, id),
    ensures
        are_of_provider(all_swap_updates(watched, logs, block)),
        events_of(all_swap_updates(watched, logs, block), registry, public)
            == all_swap_updates(set![id], logs, block),
    decreases logs.len(),
{
    if logs.len() != 0 {
        swaps_of_logs(registry, watched, logs.drop_last(), block, public, id);
        let at = block_for(logs.last(), block);
        let front = all_swap_updates(watched, logs.drop_last(), block);
        let last = swap_updates(watched, logs.last(), at);
        events_of_concat(front, last, registry, public);
        if last.len() != 0 {
            assert(last.drop_last() =~= Seq::<PoolUpdate>::empty());
            assert(events_of(last.drop_last(), registry, public) =~= Seq::<PoolUpdate>::empty());
        }
        assert(events_of(last, registry, public) =~= swap_updates(set![id], logs.last(), at));
    } else {
        assert(events_of(all_swap_updates(watched, logs, block), registry, public) =~= Seq::<
            PoolUpdate,
        >::empty());
    }
}

/// The events of a followed pool among those of liquidity logs are those of its identifier on chain.
pub proof fn liquidity_of_logs(
    registry: RegistryView,
    watched: Set<PoolId>,
    logs: Seq<Log>,
    block: Option<u64>,
    public: PoolId,
    id: PoolId,
)
    requires
        is_followed(registry, watched, public, id),
    ensures
        are_of_provider(all_liquidity_updates(watched, logs, block)),
        events_of(all_liquidity_updates(watched, logs, block), registry, public)
            == all_liquidity_updates(set![id], logs, block),
    decreases logs.len(),
{
    if logs.len() != 0 {
        liquidity_of_logs(registry, watched, logs.drop_last(), block, public, id);
        let at = block_for(logs.last(), block);
        let front = all_liquidity_updates(watched, logs.drop_last(), block);
        let last = liquidity_updates(watched, logs.last(), at);
        events_of_concat(front, last, registry, public);
        if last.len() != 0 {
            assert(last.drop_last() =~= Seq::<PoolUpdate>::empty());
            assert(events_of(last.drop_last(), registry, public) =~= Seq::<PoolUpdate>::empty());
        }
        assert(events_of(last, registry, public) =~= liquidity_updates(set![id], logs.last(), at));
    } else {
        assert(events_of(all_liquidity_updates(watched, logs, block), registry, public) =~= Seq::<
            PoolUpdate,
        >::empty());
    }
}

proof fn controller_of_block(logs: Seq<Log>, block: Option<u64>, angstrom: Address)
    ensures
        ({
            let updates = all_controller_updates(logs, block, angstrom);
            forall|i: int|
                0 <= i < updates.len() ==> (#[trigger] updates[i] is PoolConfigured
                    || updates[i] is PoolRemoved)
        }),
    decreases logs.len(),
{
    if logs.len() != 0 {
        controller_of_block(logs.drop_last(), block, angstrom);
        let last = controller_updates(
            logs.last(),
            block_for(logs.last(), block),
            angstrom,
        );
        assert forall|i: int| 0 <= i < last.len() implies (#[trigger] last[i] is PoolConfigured
            || last[i] is PoolRemoved) by {}
    }
}

proof fn fees_of_block(
    transactions: Seq<Transaction>,
    block: u64,
    provider: ProviderView,
)
    ensures
        ({
            let updates = all_transaction_updates(
                transactions,
                block,
                provider.controller_address,
                provider.known_pools,
            );
            forall|i: int| 0 <= i < updates.len() ==> #[trigger] updates[i] is FeeUpdate
        }),
    decreases transactions.len(),
{
    if transactions.len() != 0 {
        fees_of_block(transactions.drop_last(), block, provider);
        let last = transactions.last();
        let updates = transaction_updates(
            last,
            block,
            provider.controller_address,
            provider.known_pools,
        );
        if last.to == Some(provider.controller_address) {
            match batch_updates_of(last.input@) {
                Some(changes) => {
                    fee_changes_are_fees(changes, block, provider);
                },
                None => {},
            }
        }
        assert forall|i: int| 0 <= i < updates.len() implies #[trigger] updates[i] is FeeUpdate by {}
    }
}

proof fn fee_changes_are_fees(
    changes: Seq<BatchUpdate>,
    block: u64,
    provider: ProviderView,
)
    ensures
        ({
            let updates = fee_changes(changes, block, provider.known_pools);
            forall|i: int| 0 <= i < updates.len() ==> #[trigger] updates[i] is FeeUpdate
        }),
    decreases changes.len(),
{
    if changes.len() != 0 {
        fee_changes_are_fees(changes.drop_last(), block, provider);
        let last = fee_change(changes.last(), block, provider.known_pools);
        assert forall|i: int| 0 <= i < last.len() implies #[trigger] last[i] is FeeUpdate by {}
    }
}

/// The updates that the provider makes of a block.
pub open spec fn updates_of_block(provider: ProviderView, block: ChainBlock) -> Seq<PoolUpdate> {
    block_updates(
        provider,
        block.number,
        block.swap_logs,
        block.modify_logs,
        block.controller_logs,
        block.transactions,
    )
}

/// The events of a followed pool in the updates of a block are those on chain.
pub proof fn block_brings_its_events(
    provider: ProviderView,
    block: ChainBlock,
    registry: RegistryView,
    public: PoolId,
    id: PoolId,
)
    requires
        is_followed(registry, provider.watched, public, id),
    ensures
        are_of_provider(updates_of_block(provider, block)),
        stable_sort(events_of(updates_of_block(provider, block), registry, public))
            == events_on_chain(block, id),
{
    let number = Some(block.number);
    let swaps = all_swap_updates(provider.watched, block.swap_logs, number);
    let changes = all_liquidity_updates(provider.watched, block.modify_logs, number);
    let controller = all_controller_updates(
        block.controller_logs,
        number,
        provider.angstrom_address,
    );
    let fees = all_transaction_updates(
        block.transactions,
        block.number,
        provider.controller_address,
        provider.known_pools,
    );
    swaps_of_logs(registry, provider.watched, block.swap_logs, number, public, id);
    liquidity_of_logs(registry, provider.watched, block.modify_logs, number, public, id);
    controller_of_block(block.controller_logs, number, provider.angstrom_address);
    fees_of_block(block.transactions, block.number, provider);
    no_events_among(controller, registry, public);
    no_events_among(fees, registry, public);
    events_of_concat(swaps, changes, registry, public);
    events_of_concat(swaps + changes, controller, registry, public);
    events_of_concat(swaps + changes + controller, fees, registry, public);
    let all = updates_of_block(provider, block);
    assert(all == swaps + changes + controller + fees);
    assert(events_of(all, registry, public) =~= events_of(swaps, registry, public) + events_of(
        changes,
        registry,
        public,
    ));
    assert forall|i: int| 0 <= i < all.len() implies is_of_provider(#[trigger] all[i]) by {
        let a = swaps.len() as int;
        let b = a + changes.len();
        let c = b + controller.len();
        if i < a {
            assert(all[i] == swaps[i]);
        } else if i < b {
            assert(all[i] == changes[i - a]);
        } else if i < c {
            assert(all[i] == controller[i - b]);
        } else {
            assert(all[i] == fees[i - c]);
        }
    }
}

/// Updates and more updates that the provider makes.
proof fn are_of_provider_concat(a: Seq<PoolUpdate>, b: Seq<PoolUpdate>)
    requires
        are_of_provider(a),
        are_of_provider(b),
    ensures
        are_of_provider(a + b),
{
    assert forall|i: int| 0 <= i < (a + b).len() implies is_of_provider(#[trigger] (a + b)[i]) by {
        if i < a.len() {
            assert((a + b)[i] == a[i]);
        } else {
            assert((a + b)[i] == b[i - a.len()]);
        }
    }
}

proof fn fees_of_blocks(blocks: Seq<(u64, Vec<Transaction>)>, provider: ProviderView)
    ensures
        are_of_provider(
            all_block_updates(blocks, provider.controller_address, provider.known_pools),
        ),
    decreases blocks.len(),
{
    if blocks.len() != 0 {
        fees_of_blocks(blocks.drop_last(), provider);
        fees_of_block(blocks.last().1@, blocks.last().0, provider);
        are_of_provider_concat(
            all_block_updates(
                blocks.drop_last(),
                provider.controller_address,
                provider.known_pools,
            ),
            all_transaction_updates(
                blocks.last().1@,
                blocks.last().0,
                provider.controller_address,
                provider.known_pools,
            ),
        );
    }
}

/// What the provider makes of blocks that were fetched again.
pub open spec fn updates_of_chunks(
    provider: ProviderView,
    chunks: Seq<BackfillChunk>,
) -> Seq<PoolUpdate> {
    all_chunk_updates(
        provider.watched,
        chunks,
        provider.controller_address,
        provider.angstrom_address,
        provider.known_pools,
    )
}

/// What the provider makes of blocks that were fetched again are updates that it
/// makes of blocks.
pub proof fn chunks_are_of_provider(
    registry: RegistryView,
    provider: ProviderView,
    chunks: Seq<BackfillChunk>,
    public: PoolId,
    id: PoolId,
)
    requires
        is_followed(registry, provider.watched, public, id),
    ensures
        are_of_provider(updates_of_chunks(provider, chunks)),
    decreases chunks.len(),
{
    if chunks.len() != 0 {
        let chunk = chunks.last();
        chunks_are_of_provider(registry, provider, chunks.drop_last(), public, id);
        swaps_of_logs(registry, provider.watched, chunk.swap_logs@, None, public, id);
        liquidity_of_logs(registry, provider.watched, chunk.modify_logs@, None, public, id);
        controller_of_block(chunk.controller_logs@, None, provider.angstrom_address);
        fees_of_blocks(chunk.blocks@, provider);
        let swaps = all_swap_updates(provider.watched, chunk.swap_logs@, None);
        let changes = all_liquidity_updates(provider.watched, chunk.modify_logs@, None);
        let controller = all_controller_updates(
            chunk.controller_logs@,
            None,
            provider.angstrom_address,
        );
        let fees = all_block_updates(
            chunk.blocks@,
            provider.controller_address,
            provider.known_pools,
        );
        are_of_provider_concat(swaps, changes);
        assert forall|i: int| 0 <= i < controller.len() implies is_of_provider(
            #[trigger] controller[i],
        ) by {}
        are_of_provider_concat(swaps + changes, controller);
        are_of_provider_concat(swaps + changes + controller, fees);
        are_of_provider_concat(
            updates_of_chunks(provider, chunks.drop_last()),
            swaps + changes + controller + fees,
        );
    }
}

proof fn last_event_is_among(updates: Seq<PoolUpdate>, registry: RegistryView, public: PoolId)
    requires
        events_of(updates, registry, public).len() > 0,
    ensures
        updates.contains(events_of(updates, registry, public).last()),
    decreases updates.len(),
{
    if updates.len() != 0 {
        if is_event_of(updates.last(), registry, public) {
            assert(updates[updates.len() - 1] == events_of(updates, registry, public).last());
        } else {
            let front = updates.drop_last();
            last_event_is_among(front, registry, public);
            let k = choose|k: int|
                0 <= k < front.len() && front[k] == events_of(updates, registry, public).last();
            assert(updates[k] == front[k]);
        }
    }
}

proof fn insert_sorted_and_events(updates: Seq<PoolUpdate>, update: PoolUpdate, registry: RegistryView, public: PoolId)
    requires
        is_sorted(updates),
    ensures
        events_of(insert_sorted(updates, update), registry, public) == if is_event_of(update, registry, public) {
            insert_sorted(events_of(updates, registry, public), update)
        } else {
            events_of(updates, registry, public)
        },
    decreases updates.len(),
{
    let inserted = insert_sorted(updates, update);
    let events = events_of(updates, registry, public);
    if updates.len() == 0 || !key_before(sort_key(update), sort_key(updates.last())) {
        assert(inserted.drop_last() =~= updates);
        if events.len() > 0 {
            last_event_is_among(updates, registry, public);
            let k = choose|k: int| 0 <= k < updates.len() && updates[k] == events.last();
            if k < updates.len() - 1 {
                assert(!key_before(
                    sort_key(updates[updates.len() - 1]),
                    sort_key(updates[k]),
                ));
            }
            assert(!key_before(sort_key(update), sort_key(events.last())));
        }
    } else {
        let front = updates.drop_last();
        let last = updates.last();
        assert forall|i: int, j: int| 0 <= i < j < front.len() implies !key_before(
            sort_key(#[trigger] front[j]),
            sort_key(#[trigger] front[i]),
        ) by {
            assert(front[i] == updates[i] && front[j] == updates[j]);
        }
        insert_sorted_and_events(front, update, registry, public);
        assert(inserted.drop_last() =~= insert_sorted(front, update));
        assert(inserted.last() == last);
        if is_event_of(last, registry, public) {
            assert(events.drop_last() =~= events_of(front, registry, public));
            assert(events.last() == last);
        }
    }
}

proof fn sorting_and_events(updates: Seq<PoolUpdate>, registry: RegistryView, public: PoolId)
    ensures
        events_of(stable_sort(updates), registry, public) == stable_sort(events_of(updates, registry, public)),
    decreases updates.len(),
{
    if updates.len() != 0 {
        let front = updates.drop_last();
        sorting_and_events(front, registry, public);
        stable_sort_sorts(front);
        insert_sorted_and_events(stable_sort(front), updates.last(), registry, public);
        if is_event_of(updates.last(), registry, public) {
            let events = events_of(updates, registry, public);
            assert(events.drop_last() =~= events_of(front, registry, public));
        }
    } else {
        assert(events_of(updates, registry, public) =~= updates);
    }
}

proof fn insert_sorted_and_public_ids(
    registry: RegistryView,
    updates: Seq<PoolUpdate>,
    update: PoolUpdate,
)
    ensures
        insert_sorted(with_public_ids(registry, updates), with_public_id(registry, update))
            == with_public_ids(registry, insert_sorted(updates, update)),
    decreases updates.len(),
{
    let renamed = with_public_ids(registry, updates);
    let one = with_public_id(registry, update);
    assert(sort_key(one) == sort_key(update));
    if updates.len() != 0 {
        assert(renamed.last() == with_public_id(registry, updates.last()));
        assert(sort_key(renamed.last()) == sort_key(updates.last()));
        assert(renamed.drop_last() =~= with_public_ids(registry, updates.drop_last()));
        insert_sorted_and_public_ids(registry, updates.drop_last(), update);
    }
    assert(insert_sorted(renamed, one) =~= with_public_ids(
        registry,
        insert_sorted(updates, update),
    ));
}

proof fn sorting_and_public_ids(registry: RegistryView, updates: Seq<PoolUpdate>)
    ensures
        stable_sort(with_public_ids(registry, updates)) == with_public_ids(
            registry,
            stable_sort(updates),
        ),
    decreases updates.len(),
{
    let renamed = with_public_ids(registry, updates);
    if updates.len() != 0 {
        assert(renamed.drop_last() =~= with_public_ids(registry, updates.drop_last()));
        sorting_and_public_ids(registry, updates.drop_last());
        insert_sorted_and_public_ids(
            registry,
            stable_sort(updates.drop_last()),
            updates.last(),
        );
    } else {
        assert(renamed =~= with_public_ids(registry, stable_sort(updates)));
    }
}

/// Sorting updates leaves them updates that the provider makes.
proof fn sorting_keeps_provider(updates: Seq<PoolUpdate>)
    requires
        are_of_provider(updates),
    ensures
        are_of_provider(stable_sort(updates)),
{
    broadcast use vstd::seq_lib::group_to_multiset_ensures;

    stable_sort_permutes(updates);
    let sorted = stable_sort(updates);
    assert forall|i: int| 0 <= i < sorted.len() implies is_of_provider(#[trigger] sorted[i]) by {
        assert(sorted.contains(sorted[i]));
        assert(sorted.to_multiset().count(sorted[i]) > 0);
        assert(updates.contains(sorted[i]));
        let k = choose|k: int| 0 <= k < updates.len() && updates[k] == sorted[i];
        assert(is_of_provider(updates[k]));
    }
}

/// Updates in turn do to the liquidity of a pool what its events among them do.
proof fn updates_reach_pool(
    pools: Map<PoolId, PoolStateView>,
    registry: RegistryView,
    updates: Seq<PoolUpdate>,
    public: PoolId,
)
    requires
        are_of_provider(updates),
        pools.contains_key(public),
    ensures
        ({
            let after = pools_after_all(pools, with_public_ids(registry, updates));
            &&& after.contains_key(public)
            &&& after[public].liquidity == chain_after(
                pools[public].liquidity,
                events_of(updates, registry, public),
            )
        }),
    decreases updates.len(),
{
    let renamed = with_public_ids(registry, updates);
    if updates.len() != 0 {
        let front = updates.drop_last();
        let last = updates[updates.len() - 1];
        let events = events_of(updates, registry, public);
        assert(renamed.drop_last() =~= with_public_ids(registry, front));
        assert(renamed.last() == with_public_id(registry, last));
        assert(is_of_provider(last));
        updates_reach_pool(pools, registry, front, public);
        let before = pools_after_all(pools, with_public_ids(registry, front));
        let after = pools_after(before, renamed.last());
        if is_event_of(last, registry, public) {
            assert(events.drop_last() =~= events_of(front, registry, public));
            assert(events.last() == last);
            assert(after[public].liquidity == chain_step(before[public].liquidity, last));
        } else {
            assert(after[public].liquidity == before[public].liquidity);
        }
    } else {
        assert(renamed.len() == 0);
    }
}

/// Processing updates of the provider leaves the liquidity of the pools that
/// stay, and what is held back.
proof fn processing_keeps_liquidity(
    view: ServiceView,
    updates: Seq<PoolUpdate>,
    registry: RegistryView,
    public: PoolId,
)
    requires
        are_of_provider(updates),
    ensures
        ({
            let after = process_all(view, with_public_ids(registry, updates)).view;
            &&& after.pools.pools.contains_key(public) ==> view.pools.pools.contains_key(public)
                && after.pools.pools[public].liquidity == view.pools.pools[public].liquidity
            &&& after.pending == view.pending
            &&& after.channel_mode == view.channel_mode
        }),
    decreases updates.len(),
{
    let renamed = with_public_ids(registry, updates);
    if updates.len() != 0 {
        let front = updates.drop_last();
        assert(renamed.drop_last() =~= with_public_ids(registry, front));
        assert(is_of_provider(updates[updates.len() - 1]));
        assert(renamed.last() == with_public_id(registry, updates[updates.len() - 1]));
        processing_keeps_liquidity(view, front, registry, public);
    }
}

/// A batch of updates that a service takes in does to the liquidity of a pool
/// that stays what the events of the pool do, in the order of transactions and
/// logs.
pub proof fn batch_reaches_pool(view: ServiceView, updates: Seq<PoolUpdate>, public: PoolId)
    requires
        !view.channel_mode,
        are_of_provider(updates),
        view.pools.pools.contains_key(public),
    ensures
        ({
            let after = batch_step(view, updates).view;
            &&& after.pools.pools.contains_key(public) ==> after.pools.pools[public].liquidity
                == chain_after(
                view.pools.pools[public].liquidity,
                stable_sort(events_of(updates, view.registry, public)),
            )
            &&& after.pending == view.pending
            &&& !after.channel_mode
        }),
{
    let renamed = with_public_ids(view.registry, updates);
    sorting_and_events(updates, view.registry, public);
    sorting_and_public_ids(view.registry, updates);
    sorting_keeps_provider(updates);
    updates_reach_pool(view.pools.pools, view.registry, stable_sort(updates), public);
    let applied = apply_step(view, renamed);
    processing_keeps_liquidity(applied.view, updates, view.registry, public);
    assert(batch_step(view, updates).view == and_process(applied, renamed).view);
}

} // verus!
