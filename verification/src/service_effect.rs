//! What the service makes of an update: what becomes of the pools and of the registry,
//! and what it asks to be done.
use vstd::prelude::*;

use crate::baseline_pool_factory::PoolLoad;
use crate::pool_key::{pool_id_of, PoolKey};
use crate::pool_manager_service::{
    apply_step, batch_step, dispatch_all, dispatch_step, events_step, idle_step, process_all,
    process_step, slot0_updates, with_public_ids, ServiceAction, ServiceView,
};
use crate::pool_registry::{is_consistent, RegistryView};
use crate::shared_pools::{after_updates, last_block, pools_after, pools_after_all};
use crate::sorting::{insert_sorted, stable_sort};
use crate::updates::{PoolUpdate, Slot0Update};
use crate::words::PoolId;

verus! {

/// A single update needs no sorting.
proof fn one_update_alone(update: PoolUpdate)
    ensures
        stable_sort(seq![update]) == seq![update],
        seq![update].drop_last() == Seq::<PoolUpdate>::empty(),
        seq![update].last() == update,
{
    let only = seq![update];
    assert(only.drop_last() =~= Seq::<PoolUpdate>::empty());
    assert(stable_sort(only.drop_last()) =~= Seq::<PoolUpdate>::empty());
    assert(insert_sorted(Seq::<PoolUpdate>::empty(), update) =~= only);
}

/// What processing a single update is.
proof fn one_update_processed(view: ServiceView, update: PoolUpdate)
    ensures
        process_all(view, seq![update]) == process_step(view, update),
{
    one_update_alone(update);
    let none = Seq::<ServiceAction>::empty();
    assert(process_all(view, Seq::empty()).actions == none);
    assert(process_all(view, Seq::empty()).view == view);
    assert(none + process_step(view, update).actions =~= process_step(view, update).actions);
}

/// Without a channel an update is applied to the pools: after a price, a change of
/// liquidity, new fees, ticks or a whole state, the pools are what the update makes of
/// them. After a removal the pool is gone, and every other pool is as before; new blocks
/// and new pools leave all of them. What is known of other things stays, but for the
/// block of the pools, which moves as the update says.
pub proof fn direct_update_is_applied(view: ServiceView, update: PoolUpdate, other: PoolId)
    requires
        !view.channel_mode,
    ensures
        ({
            let after = dispatch_step(view, update).view;
            let pools = view.pools.pools;
            &&& update is SwapEvent || update is LiquidityEvent || update is FeeUpdate
                || update is UpdatedSlot0 || update is NewTicks || update is NewPoolState
                || update is Slot0Update ==> after.pools.pools == pools_after(pools, update)
            &&& update matches PoolUpdate::PoolRemoved { pool_id, .. } ==> {
                &&& !after.pools.pools.contains_key(pool_id)
                &&& other != pool_id ==> after.pools.pools.contains_key(other)
                    == pools.contains_key(other) && (pools.contains_key(other)
                    ==> after.pools.pools[other] == pools[other])
            }
            &&& update is NewBlock || update is NewPool || update is PoolConfigured
                || update is Reorg ==> after.pools.pools == pools
            &&& update matches PoolUpdate::NewBlock(block) ==> after.current_block == block
                && after.pools == view.pools
            &&& update matches PoolUpdate::Reorg { to_block, .. } ==> after.pools.block_number
                == to_block
            &&& !(update is NewBlock) ==> after.current_block == view.current_block
            &&& !(update is Reorg) ==> after.pools.block_number == view.pools.block_number
        }),
        stays_set_up(view, dispatch_step(view, update).view),
        registry_changes_as_told(view, update, dispatch_step(view, update).view.registry, other),
{
    one_update_alone(update);
    let applied = apply_step(view, seq![update]).view;
    one_update_processed(applied, update);
    assert(pools_after_all(view.pools.pools, Seq::empty()) == view.pools.pools);
    assert(applied.pools.pools == pools_after(view.pools.pools, update));
    assert(last_block(Seq::<PoolUpdate>::empty()) is None);
    match update {
        PoolUpdate::FeeUpdate { pool_id, .. } => {
            assert(pools_after(applied.pools.pools, update) =~= pools_after(
                view.pools.pools,
                update,
            ));
        },
        PoolUpdate::Slot0Update(data) => {
            assert(pools_after(applied.pools.pools, update) =~= pools_after(
                view.pools.pools,
                update,
            ));
        },
        _ => {},
    }
}

/// Whether what the service was set up with stays.
pub open spec fn stays_set_up(before: ServiceView, after: ServiceView) -> bool {
    &&& after.pool_manager == before.pool_manager
    &&& after.tick_band == before.tick_band
    &&& after.is_bundle_mode == before.is_bundle_mode
    &&& after.auto_pool_creation == before.auto_pool_creation
    &&& after.has_slot0_stream == before.has_slot0_stream
    &&& after.channel_mode == before.channel_mode
    &&& after.pending == before.pending
}

/// Whether a registry after an update is as the update says: a pool that was configured
/// is known under its identifier where pools are taken up by themselves, a pool that was
/// removed is not, every other pool is as before, and no other update changes anything.
pub open spec fn registry_changes_as_told(
    view: ServiceView,
    update: PoolUpdate,
    after: RegistryView,
    other: PoolId,
) -> bool {
    let before = view.registry;
    &&& update matches PoolUpdate::PoolConfigured { pool_key, .. } ==> if view.auto_pool_creation {
        &&& after.pools.contains_key(pool_id_of(pool_key))
        &&& after.pools[pool_id_of(pool_key)] == pool_key
        &&& after.conversion_map.contains_key(pool_id_of(pool_key))
        &&& after.conversion_map[pool_id_of(pool_key)] == pool_id_of(
            PoolKey { fee: 0x80_0000, ..pool_key },
        )
        &&& other != pool_id_of(pool_key) ==> after.pools.contains_key(other)
            == before.pools.contains_key(other) && (before.pools.contains_key(other)
            ==> after.pools[other] == before.pools[other])
    } else {
        after == before
    }
    &&& update matches PoolUpdate::NewPool { pool_id, .. } ==> !view.auto_pool_creation
        || !before.pools.contains_key(pool_id) ==> after == before
    &&& update matches PoolUpdate::PoolRemoved { pool_id, .. } ==> {
        &&& !after.pools.contains_key(pool_id)
        &&& !after.conversion_map.contains_key(pool_id)
        &&& other != pool_id ==> after.pools.contains_key(other) == before.pools.contains_key(
            other,
        ) && (before.pools.contains_key(other) ==> after.pools[other] == before.pools[other])
    }
    &&& !(update is PoolConfigured) && !(update is NewPool) && !(update is PoolRemoved) ==> after
        == before
}

/// With a channel every update is sent, before anything else is asked for, and the pools
/// stay as they are, but for a pool that was removed. A new block, a new pool, a
/// configured one and a removed one are taken note of as without a channel; any other
/// update is sent and nothing more.
pub proof fn channel_update_is_sent(view: ServiceView, update: PoolUpdate, other: PoolId)
    requires
        view.channel_mode,
    ensures
        ({
            let step = dispatch_step(view, update);
            &&& step.actions.len() > 0 && step.actions[0] == ServiceAction::Send(update)
            &&& !(update is PoolRemoved) ==> step.view.pools == view.pools
            &&& update matches PoolUpdate::PoolRemoved { pool_id, .. } ==> {
                &&& !step.view.pools.pools.contains_key(pool_id)
                &&& other != pool_id ==> step.view.pools.pools.contains_key(other)
                    == view.pools.pools.contains_key(other) && (view.pools.pools.contains_key(other)
                    ==> step.view.pools.pools[other] == view.pools.pools[other])
            }
            &&& update matches PoolUpdate::NewBlock(block) ==> step.view.current_block == block
            &&& !(update is NewBlock) ==> step.view.current_block == view.current_block
            &&& !(update is NewPool) && !(update is PoolConfigured) && !(update is PoolRemoved)
                ==> step.actions.len() == 1
        }),
        stays_set_up(view, dispatch_step(view, update).view),
        registry_changes_as_told(view, update, dispatch_step(view, update).view.registry, other),
{
    one_update_alone(update);
    let applied = apply_step(view, seq![update]).view;
    one_update_processed(applied, update);
    assert(pools_after_all(view.pools.pools, Seq::empty()) == view.pools.pools);
    assert(last_block(Seq::<PoolUpdate>::empty()) is None);
}

/// What the service asks for with an update that is dispatched, besides sending it. A
/// pool that is taken up is loaded, by both of its identifiers, with the block and the
/// fees of the update and the number of ticks that a pool starts with on each side, and
/// the registry is handed on; it is taken up only where pools are taken up by themselves.
/// A removal unsubscribes from the prices of the pool where there is a stream of them.
/// Whoever waits for a block is told of a reorganization.
pub proof fn dispatch_asks_for_what_is_due(view: ServiceView, update: PoolUpdate)
    ensures
        ({
            let actions = dispatch_step(view, update).actions;
            let asked = if view.channel_mode {
                actions.skip(1)
            } else {
                actions
            };
            let taken_up: Option<(PoolKey, u64, u32, u32, u32)> = match update {
                PoolUpdate::PoolConfigured {
                    pool_key,
                    block,
                    bundle_fee,
                    swap_fee,
                    protocol_fee,
                    ..
                } => if view.auto_pool_creation {
                    Some((pool_key, block, bundle_fee, swap_fee, protocol_fee))
                } else {
                    None
                },
                PoolUpdate::NewPool { pool_id, block, bundle_fee, swap_fee, protocol_fee, .. } =>
                if view.auto_pool_creation && view.registry.pools.contains_key(pool_id) {
                    Some(
                        (
                            view.registry.pools[pool_id],
                            block,
                            bundle_fee,
                            swap_fee,
                            protocol_fee,
                        ),
                    )
                } else {
                    None
                },
                _ => None,
            };
            &&& taken_up matches Some((key, block, bundle_fee, swap_fee, protocol_fee)) ==> {
                &&& asked.len() == 2
                &&& asked[0] matches ServiceAction::LoadPool(load) && load == (PoolLoad {
                    pool_id: pool_id_of(key),
                    internal_pool_id: pool_id_of(PoolKey { fee: 0x80_0000, ..key }),
                    tick_band: 400,
                    block,
                    bundle_fee,
                    swap_fee,
                    protocol_fee,
                })
                &&& asked[1] is ShareRegistry
            }
            &&& (update is PoolConfigured || update is NewPool) && taken_up is None ==> asked.len()
                == 0
            &&& update matches PoolUpdate::PoolRemoved { pool_id, .. } ==> if view.has_slot0_stream {
                asked.len() == 1 && asked[0] == ServiceAction::UnsubscribeSlot0(pool_id)
            } else {
                asked.len() == 0
            }
            &&& update is NewBlock || update is SwapEvent || update is LiquidityEvent
                || update is FeeUpdate || update is UpdatedSlot0 || update is NewTicks
                || update is Slot0Update ==> asked.len() == 0
            &&& update is Reorg && !view.channel_mode ==> asked.len() == 1 && asked[0] is Notify
        }),
{
    one_update_alone(update);
    let applied = apply_step(view, seq![update]).view;
    one_update_processed(applied, update);
    assert(last_block(Seq::<PoolUpdate>::empty()) is None);
}

/// What processing an update changes and asks for, where it has been applied already: the
/// current block with a new block, the fees or the price of a pool once more, the pools
/// and the registry with a removal, the registry with a pool that is taken up, and nothing
/// else. A pool that is taken up is loaded and the registry handed on.
pub proof fn processing_takes_note(view: ServiceView, update: PoolUpdate, other: PoolId)
    ensures
        ({
            let step = process_step(view, update);
            let pools = view.pools.pools;
            &&& stays_set_up(view, step.view)
            &&& registry_changes_as_told(view, update, step.view.registry, other)
            &&& step.view.pools.block_number == view.pools.block_number
            &&& update matches PoolUpdate::NewBlock(block) ==> step.view.current_block == block
            &&& !(update is NewBlock) ==> step.view.current_block == view.current_block
            &&& update is FeeUpdate || update is Slot0Update ==> step.view.pools.pools
                == pools_after(pools, update)
            &&& update matches PoolUpdate::PoolRemoved { pool_id, .. } ==> {
                &&& !step.view.pools.pools.contains_key(pool_id)
                &&& other != pool_id ==> step.view.pools.pools.contains_key(other)
                    == pools.contains_key(other) && (pools.contains_key(other)
                    ==> step.view.pools.pools[other] == pools[other])
                &&& view.has_slot0_stream ==> step.actions.len() == 1 && step.actions[0]
                    == ServiceAction::UnsubscribeSlot0(pool_id)
                &&& !view.has_slot0_stream ==> step.actions.len() == 0
            }
            &&& !(update is FeeUpdate) && !(update is Slot0Update) && !(update is PoolRemoved)
                ==> step.view.pools == view.pools
            &&& update is PoolConfigured && view.auto_pool_creation ==> step.actions.len() == 2
                && step.actions[0] is LoadPool && step.actions[1] is ShareRegistry
            &&& update is PoolConfigured && !view.auto_pool_creation ==> step.actions.len() == 0
            &&& update is NewBlock || update is SwapEvent || update is LiquidityEvent
                || update is FeeUpdate || update is UpdatedSlot0 || update is NewTicks
                || update is Slot0Update || update is Reorg ==> step.actions.len() == 0
        }),
{
}

/// A pool whose state was loaded is followed from then on: its events by the identifier
/// that it goes by on chain, and its prices by its public one where there is a stream of
/// them. It may be named by either identifier.
pub proof fn loaded_pool_is_followed(view: ServiceView, update: PoolUpdate, id: PoolId)
    requires
        !view.channel_mode,
        is_consistent(view.registry),
        view.registry.pools.contains_key(id),
        update matches PoolUpdate::NewPoolState { pool_id, .. } && (pool_id
            == view.registry.conversion_map[id] || (pool_id == id
            && !view.registry.reverse_conversion_map.contains_key(id))),
    ensures
        ({
            let actions = dispatch_step(view, update).actions;
            &&& actions.len() == if view.has_slot0_stream {
                2nat
            } else {
                1nat
            }
            &&& actions[0] == ServiceAction::StartTracking(view.registry.conversion_map[id])
            &&& view.has_slot0_stream ==> actions[1] == ServiceAction::SubscribeSlot0(id)
        }),
{
    one_update_alone(update);
    let applied = apply_step(view, seq![update]).view;
    one_update_processed(applied, update);
    assert(last_block(Seq::<PoolUpdate>::empty()) is None);
    assert(view.registry.conversion_map.dom().contains(id));
}

/// A pool whose state was loaded and that the registry does not know has its events
/// followed by the identifier that it was loaded under, and nothing else is asked for.
pub proof fn unknown_loaded_pool_is_followed(view: ServiceView, update: PoolUpdate)
    requires
        !view.channel_mode,
        update matches PoolUpdate::NewPoolState { pool_id, .. }
            && !view.registry.conversion_map.contains_key(pool_id)
            && !view.registry.reverse_conversion_map.contains_key(pool_id),
    ensures
        update matches PoolUpdate::NewPoolState { pool_id, .. } && dispatch_step(
            view,
            update,
        ).actions == seq![ServiceAction::StartTracking(pool_id)],
{
    one_update_alone(update);
    let applied = apply_step(view, seq![update]).view;
    one_update_processed(applied, update);
    assert(last_block(Seq::<PoolUpdate>::empty()) is None);
    if let PoolUpdate::NewPoolState { pool_id, .. } = update {
        assert(dispatch_step(view, update).actions =~= seq![ServiceAction::StartTracking(pool_id)]);
    }
}

/// Updates are dispatched one after the other: some and others after them are all of
/// them, and so is what is asked for.
pub proof fn updates_are_dispatched_in_turn(
    view: ServiceView,
    first: Seq<PoolUpdate>,
    more: Seq<PoolUpdate>,
    only: PoolUpdate,
)
    ensures
        ({
            let front = dispatch_all(view, first);
            let back = dispatch_all(front.view, more);
            let all = dispatch_all(view, first + more);
            &&& all.view == back.view
            &&& all.actions == front.actions + back.actions
        }),
        dispatch_all(view, seq![only]).view == dispatch_step(view, only).view,
        dispatch_all(view, seq![only]).actions == dispatch_step(view, only).actions,
        dispatch_all(view, Seq::empty()).view == view,
        dispatch_all(view, Seq::empty()).actions.len() == 0,
    decreases more.len(),
{
    one_update_alone(only);
    let none = Seq::<ServiceAction>::empty();
    assert(dispatch_all(view, Seq::empty()).actions == none);
    assert(none + dispatch_step(view, only).actions =~= dispatch_step(view, only).actions);
    let front = dispatch_all(view, first);
    if more.len() == 0 {
        assert(first + more =~= first);
        assert(front.actions + dispatch_all(front.view, more).actions =~= front.actions);
    } else {
        assert((first + more).drop_last() =~= first + more.drop_last());
        updates_are_dispatched_in_turn(view, first, more.drop_last(), only);
        let mid = dispatch_all(front.view, more.drop_last());
        let last = dispatch_step(mid.view, more.last());
        assert((front.actions + mid.actions) + last.actions =~= front.actions + (mid.actions
            + last.actions));
    }
}

/// Updates are processed one after the other.
pub proof fn updates_are_processed_in_turn(
    view: ServiceView,
    first: Seq<PoolUpdate>,
    more: Seq<PoolUpdate>,
)
    ensures
        ({
            let front = process_all(view, first);
            let back = process_all(front.view, more);
            let all = process_all(view, first + more);
            &&& all.view == back.view
            &&& all.actions == front.actions + back.actions
        }),
    decreases more.len(),
{
    let front = process_all(view, first);
    if more.len() == 0 {
        assert(first + more =~= first);
        assert(front.actions + process_all(front.view, more).actions =~= front.actions);
    } else {
        assert((first + more).drop_last() =~= first + more.drop_last());
        updates_are_processed_in_turn(view, first, more.drop_last());
        let mid = process_all(front.view, more.drop_last());
        let last = process_step(mid.view, more.last());
        assert((front.actions + mid.actions) + last.actions =~= front.actions + (mid.actions
            + last.actions));
    }
}

/// The events of a block come under the public identifiers of their pools: in a
/// consistent registry a swap, a change of liquidity or a price that names a pool by its
/// identifier on chain names it by its public one, with everything else as it was. What
/// names no known pool stays, and so does every other update; none is lost.
pub proof fn events_come_under_public_ids(
    registry: RegistryView,
    updates: Seq<PoolUpdate>,
    i: int,
    id: PoolId,
)
    requires
        is_consistent(registry),
        0 <= i < updates.len(),
    ensures
        ({
            let out = with_public_ids(registry, updates);
            let known = registry.pools.contains_key(id);
            let chain_id = registry.conversion_map[id];
            &&& out.len() == updates.len()
            &&& updates[i] matches PoolUpdate::SwapEvent {
                pool_id,
                block,
                tx_index,
                log_index,
                event,
            } ==> (out[i] matches PoolUpdate::SwapEvent {
                pool_id: p,
                block: b,
                tx_index: t,
                log_index: l,
                event: e,
            } && b == block && t == tx_index && l == log_index && e == event && (known && pool_id
                == chain_id ==> p == id) && (!registry.reverse_conversion_map.contains_key(pool_id)
                ==> p == pool_id))
            &&& updates[i] matches PoolUpdate::LiquidityEvent {
                pool_id,
                block,
                tx_index,
                log_index,
                event,
            } ==> (out[i] matches PoolUpdate::LiquidityEvent {
                pool_id: p,
                block: b,
                tx_index: t,
                log_index: l,
                event: e,
            } && b == block && t == tx_index && l == log_index && e == event && (known && pool_id
                == chain_id ==> p == id) && (!registry.reverse_conversion_map.contains_key(pool_id)
                ==> p == pool_id))
            &&& updates[i] matches PoolUpdate::UpdatedSlot0 { pool_id, data } ==> (
            out[i] matches PoolUpdate::UpdatedSlot0 { pool_id: p, data: d } && d == data && (known
                && pool_id == chain_id ==> p == id) && (
            !registry.reverse_conversion_map.contains_key(pool_id) ==> p == pool_id))
            &&& !(updates[i] is SwapEvent) && !(updates[i] is LiquidityEvent)
                && !(updates[i] is UpdatedSlot0) ==> out[i] == updates[i]
        }),
{
    if registry.pools.contains_key(id) {
        assert(registry.conversion_map.dom().contains(id));
    }
}

/// While something is being loaded nothing is taken in: the updates of a block wait
/// behind those that wait already, and nothing else changes or is asked for. Once
/// nothing is being loaded they come in, none waits any more, and updates that then come
/// are taken in at once.
pub proof fn updates_wait_while_loading(view: ServiceView, events: Seq<PoolUpdate>)
    ensures
        ({
            let held = events_step(view, events, true);
            &&& held.view.pending == view.pending + events
            &&& held.view == (ServiceView { pending: held.view.pending, ..view })
            &&& held.actions.len() == 0
            &&& idle_step(view, true).view == view
            &&& idle_step(view, true).actions.len() == 0
            &&& idle_step(view, false) == batch_step(
                ServiceView { pending: Seq::empty(), ..view },
                view.pending,
            )
            &&& events_step(view, events, false) == batch_step(view, events)
        }),
{
}

/// Without a channel the updates of a block are applied to the pools together, under
/// the public identifiers of their pools and in the order of the chain, before any of
/// them is processed; and the ticks of all pools are checked last, as of the block that
/// the service then stands at. Whoever waits for a block is told first, where the
/// updates move to one.
pub proof fn block_is_applied_then_checked(view: ServiceView, events: Seq<PoolUpdate>)
    requires
        !view.channel_mode,
    ensures
        ({
            let updates = with_public_ids(view.registry, events);
            let step = batch_step(view, events);
            let applied = ServiceView { pools: after_updates(view.pools, updates), ..view };
            let moves = exists|i: int|
                0 <= i < updates.len() && (#[trigger] updates[i] is NewBlock || updates[i] is Reorg);
            &&& step.view == process_all(applied, updates).view
            &&& step.actions.len() > 0
            &&& step.actions.last() == ServiceAction::CheckTicks(step.view.current_block)
            &&& moves ==> step.actions[0] is Notify
        }),
{
    let updates = with_public_ids(view.registry, events);
    crate::shared_pools::a_mover_moves(updates);
}

/// With a channel what is sent of dispatched updates is each of them, once and in turn.
#[verifier::spinoff_prover]
proof fn dispatched_are_sent(view: ServiceView, updates: Seq<PoolUpdate>)
    requires
        view.channel_mode,
    ensures
        dispatch_all(view, updates).view.channel_mode,
        dispatch_all(view, updates).actions.filter(|a: ServiceAction| a is Send)
            == updates.map_values(|u: PoolUpdate| ServiceAction::Send(u)),
    decreases updates.len(),
{
    let sent = |a: ServiceAction| a is Send;
    let send = |u: PoolUpdate| ServiceAction::Send(u);
    if updates.len() == 0 {
        reveal(Seq::filter);
        assert(updates.map_values(send) =~= Seq::<ServiceAction>::empty());
    } else {
        let front = dispatch_all(view, updates.drop_last());
        let last = updates.last();
        let step = dispatch_step(front.view, last);
        dispatched_are_sent(view, updates.drop_last());
        stays_in_channel_mode(front.view, last);
        Seq::filter_distributes_over_add(front.actions, step.actions, sent);
        one_is_sent(front.view, last);
        assert(updates.map_values(send) =~= updates.drop_last().map_values(send).push(
            ServiceAction::Send(last),
        ));
        assert(front.actions.filter(sent) + seq![ServiceAction::Send(last)]
            =~= updates.map_values(send));
    }
}

/// Dispatching does not change the mode.
proof fn stays_in_channel_mode(view: ServiceView, update: PoolUpdate)
    requires
        view.channel_mode,
    ensures
        dispatch_step(view, update).view.channel_mode,
{
    one_update_alone(update);
    one_update_processed(apply_step(view, seq![update]).view, update);
}

/// With a channel a dispatched update is sent once.
#[verifier::spinoff_prover]
proof fn one_is_sent(view: ServiceView, update: PoolUpdate)
    requires
        view.channel_mode,
    ensures
        dispatch_step(view, update).actions.filter(|a: ServiceAction| a is Send)
            == seq![ServiceAction::Send(update)],
{
    let sent = |a: ServiceAction| a is Send;
    one_update_alone(update);
    let applied = apply_step(view, seq![update]).view;
    one_update_processed(applied, update);
    assert(last_block(Seq::<PoolUpdate>::empty()) is None);
    let actions = dispatch_step(view, update).actions;
    let rest = actions.skip(1);
    assert(actions =~= seq![ServiceAction::Send(update)] + rest);
    Seq::filter_distributes_over_add(seq![ServiceAction::Send(update)], rest, sent);
    assert forall|i: int| 0 <= i < rest.len() implies !sent(#[trigger] rest[i]) by {
        assert(rest[i] == actions[i + 1]);
    }
    rest.lemma_all_neg_filter_empty(sent);
    assert(seq![ServiceAction::Send(update)].filter(sent) =~= seq![ServiceAction::Send(update)])
        by {
        reveal_with_fuel(Seq::filter, 2);
        assert(seq![ServiceAction::Send(update)].drop_last() =~= Seq::<ServiceAction>::empty());
    }
    assert(actions.filter(sent) =~= seq![ServiceAction::Send(update)]);
}

/// With a channel every update of a block is sent under the public identifier of its
/// pool, each once and in the order in which they came.
pub proof fn channel_sends_a_block_in_turn(view: ServiceView, events: Seq<PoolUpdate>)
    requires
        view.channel_mode,
    ensures
        batch_step(view, events).actions.filter(|a: ServiceAction| a is Send) == with_public_ids(
            view.registry,
            events,
        ).map_values(|u: PoolUpdate| ServiceAction::Send(u)),
        batch_step(view, events).view.channel_mode,
{
    dispatched_are_sent(view, with_public_ids(view.registry, events));
}

/// The prices of the feed are dispatched one by one, as they come.
pub proof fn feed_is_dispatched_as_it_comes(
    view: ServiceView,
    updates: Seq<Slot0Update>,
    more: Seq<Slot0Update>,
    only: Slot0Update,
)
    ensures
        slot0_updates(updates + more) == slot0_updates(updates) + slot0_updates(more),
        slot0_updates(seq![only]) == seq![PoolUpdate::Slot0Update(only)],
        !view.channel_mode ==> dispatch_all(
            view,
            slot0_updates(seq![only]),
        ).view.pools.pools == pools_after(view.pools.pools, PoolUpdate::Slot0Update(only)),
{
    assert(slot0_updates(updates + more) =~= slot0_updates(updates) + slot0_updates(more));
    assert(slot0_updates(seq![only]) =~= seq![PoolUpdate::Slot0Update(only)]);
    updates_are_dispatched_in_turn(
        view,
        Seq::empty(),
        Seq::empty(),
        PoolUpdate::Slot0Update(only),
    );
    if !view.channel_mode {
        direct_update_is_applied(view, PoolUpdate::Slot0Update(only), only.angstrom_pool_id);
    }
}

} // verus!
