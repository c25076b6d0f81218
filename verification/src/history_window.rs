//! What history keeps of the events of pools, and what a reorganization makes of it.
use vstd::prelude::*;

use crate::events::{modify_liquidity_of, Log};
use crate::pool_key::{pool_id_of, private_key_of};
use crate::pool_registry::{is_consistent, RegistryView};
use crate::pool_update_provider::{
    affected_pools, before_block, can_invert, chain_id, chunk_ranges, history_after_block,
    history_after_logs, history_after_updates, history_cutoff, history_is_cut_at_block,
    inverse_events, inverse_of, negation, price_updates, since_block, with_event, BlockLogs,
    ProviderView, StoredEvent,
};
use crate::updates::{PoolUpdate, Slot0Data};
use crate::words::{half_256, i256_neg_exists, PoolId};

verus! {

/// History goes back ten blocks, the current one taken in: the oldest block that it
/// holds is nine before the current one, or the first block of all where the chain is
/// shorter. Cutting history keeps what is not older, in its order, and a new event is
/// kept behind what was there, if it is not older itself.
pub proof fn history_spans_ten_blocks(
    history: Seq<StoredEvent>,
    event: StoredEvent,
    current_block: u64,
)
    ensures
        current_block >= 9 ==> history_cutoff(current_block) + 9 == current_block,
        current_block < 9 ==> history_cutoff(current_block) == 0,
        since_block(history, history_cutoff(current_block)) == history.filter(
            |e: StoredEvent| e.block + 10 > current_block,
        ),
        before_block(history, history_cutoff(current_block)) == history.filter(
            |e: StoredEvent| e.block + 10 <= current_block,
        ),
        with_event(history, event, current_block) == history.push(event).filter(
            |e: StoredEvent| e.block + 10 > current_block,
        ),
{
    let cutoff = history_cutoff(current_block);
    history_is_cut_at_block(history, cutoff);
    history_is_cut_at_block(history.push(event), cutoff);
    let kept = |e: StoredEvent| e.block >= cutoff;
    let old = |e: StoredEvent| e.block < cutoff;
    let recent = |e: StoredEvent| e.block + 10 > current_block;
    let past = |e: StoredEvent| e.block + 10 <= current_block;
    same_filter(history, kept, recent);
    same_filter(history, old, past);
    same_filter(history.push(event), kept, recent);
}

/// Predicates that say the same keep the same.
proof fn same_filter(
    history: Seq<StoredEvent>,
    p: spec_fn(StoredEvent) -> bool,
    q: spec_fn(StoredEvent) -> bool,
)
    requires
        forall|e: StoredEvent| #[trigger] p(e) == q(e),
    ensures
        history.filter(p) == history.filter(q),
    decreases history.len(),
{
    reveal(Seq::filter);
    if history.len() != 0 {
        same_filter(history.drop_last(), p, q);
    }
}

/// The logs of a block go into history one after the other. A change of the liquidity
/// of a watched pool is kept with its pool, the block, its place in it and the change
/// itself; any other log leaves history as it is.
pub proof fn logs_go_into_history_in_turn(
    history: Seq<StoredEvent>,
    watched: Set<PoolId>,
    first: Seq<Log>,
    more: Seq<Log>,
    log: Log,
    block: u64,
    current_block: u64,
)
    ensures
        history_after_logs(history, watched, first + more, block, current_block)
            == history_after_logs(
            history_after_logs(history, watched, first, block, current_block),
            watched,
            more,
            block,
            current_block,
        ),
        ({
            let after = history_after_logs(history, watched, seq![log], block, current_block);
            match modify_liquidity_of(log) {
                Some((pool_id, event)) => if watched.contains(pool_id) {
                    exists|kept: StoredEvent|
                        after == #[trigger] with_event(history, kept, current_block)
                            && kept.pool_id == pool_id && kept.liquidity_event == event
                            && kept.block == block && (log.transaction_index == Some(kept.tx_index)
                            || (log.transaction_index is None && kept.tx_index == 0)) && (
                        log.log_index == Some(kept.log_index) || (log.log_index is None
                            && kept.log_index == 0))
                } else {
                    after == history
                },
                None => after == history,
            }
        }),
        history_after_logs(history, watched, Seq::empty(), block, current_block) == history,
    decreases more.len(),
{
    if more.len() == 0 {
        assert(first + more =~= first);
    } else {
        assert((first + more).drop_last() =~= first + more.drop_last());
        logs_go_into_history_in_turn(
            history,
            watched,
            first,
            more.drop_last(),
            log,
            block,
            current_block,
        );
    }
    let only = seq![log];
    assert(only.drop_last() =~= Seq::<Log>::empty());
    assert(only.last() == log);
    assert(history_after_logs(history, watched, only.drop_last(), block, current_block) == history);
    if let Some((pool_id, event)) = modify_liquidity_of(log) {
        if watched.contains(pool_id) {
            let kept = StoredEvent {
                block,
                tx_index: match log.transaction_index {
                    Some(i) => i,
                    None => 0,
                },
                log_index: match log.log_index {
                    Some(i) => i,
                    None => 0,
                },
                pool_id,
                liquidity_event: event,
            };
            assert(history_after_logs(history, watched, only, block, current_block) == with_event(
                history,
                kept,
                current_block,
            ));
        }
    }
}

/// The history after a block is that with its liquidity logs, whatever became of the
/// other queries; where these logs could not be fetched, or no pool is watched, it is as
/// before.
pub proof fn block_goes_into_history(view: ProviderView, block: u64, fetched: BlockLogs)
    ensures
        (forall|id: PoolId| !view.watched.contains(id)) || fetched.pool_logs is Err
            ==> history_after_block(view, block, fetched) == view.history,
        (exists|id: PoolId| view.watched.contains(id)) ==> (fetched.pool_logs matches Ok((
            swap_logs,
            modify_logs,
        )) ==> history_after_block(view, block, fetched) == history_after_logs(
            view.history,
            view.watched,
            modify_logs@,
            block,
            view.current_block,
        )),
{
    if forall|id: PoolId| !view.watched.contains(id) {
        assert(view.watched =~= Set::<PoolId>::empty());
    }
}

/// Updates go into history one after the other. A change of liquidity is kept as it is,
/// and no other update is.
pub proof fn updates_go_into_history_in_turn(
    history: Seq<StoredEvent>,
    first: Seq<PoolUpdate>,
    more: Seq<PoolUpdate>,
    update: PoolUpdate,
    current_block: u64,
)
    ensures
        history_after_updates(history, first + more, current_block) == history_after_updates(
            history_after_updates(history, first, current_block),
            more,
            current_block,
        ),
        history_after_updates(history, seq![update], current_block) == match update {
            PoolUpdate::LiquidityEvent { pool_id, block, tx_index, log_index, event } => with_event(
                history,
                StoredEvent { block, tx_index, log_index, pool_id, liquidity_event: event },
                current_block,
            ),
            _ => history,
        },
        history_after_updates(history, Seq::empty(), current_block) == history,
    decreases more.len(),
{
    if more.len() == 0 {
        assert(first + more =~= first);
    } else {
        assert((first + more).drop_last() =~= first + more.drop_last());
        updates_go_into_history_in_turn(history, first, more.drop_last(), update, current_block);
    }
    let only = seq![update];
    assert(only.drop_last() =~= Seq::<PoolUpdate>::empty());
    assert(only.last() == update);
    assert(history_after_updates(history, only.drop_last(), current_block) == history);
}

/// Every history can be undone in which no event of the blocks in question changed the
/// liquidity by the one amount that has no opposite.
pub proof fn events_can_be_undone(history: Seq<StoredEvent>, from_block: u64, to_block: u64)
    requires
        forall|i: int|
            0 <= i < history.len() && from_block <= (#[trigger] history[i]).block <= to_block
                ==> history[i].liquidity_event.liquidity_delta@ > -half_256(),
    ensures
        can_invert(history, from_block, to_block),
{
}

/// What undoes events. Later events are undone before earlier ones. An event of the
/// blocks in question is undone by one that takes away what it added, for the same pool
/// and range, at the same place; an event of other blocks is not undone.
pub proof fn events_are_undone_backwards(
    earlier: Seq<StoredEvent>,
    later: Seq<StoredEvent>,
    event: StoredEvent,
    from_block: u64,
    to_block: u64,
)
    requires
        event.liquidity_event.liquidity_delta@ != -half_256(),
    ensures
        inverse_events(earlier + later, from_block, to_block) == inverse_events(
            later,
            from_block,
            to_block,
        ) + inverse_events(earlier, from_block, to_block),
        !(from_block <= event.block <= to_block) ==> inverse_events(
            seq![event],
            from_block,
            to_block,
        ).len() == 0,
        from_block <= event.block <= to_block ==> ({
            let undone = inverse_events(seq![event], from_block, to_block);
            &&& undone.len() == 1
            &&& undone[0] matches PoolUpdate::LiquidityEvent {
                pool_id,
                block,
                tx_index,
                log_index,
                event: change,
            } && {
                &&& pool_id == event.pool_id
                &&& block == event.block
                &&& tx_index == event.tx_index
                &&& log_index == event.log_index
                &&& change.liquidity_delta@ == -event.liquidity_event.liquidity_delta@
                &&& change.tick_lower == event.liquidity_event.tick_lower
                &&& change.tick_upper == event.liquidity_event.tick_upper
                &&& change.sender == event.liquidity_event.sender
                &&& change.salt == event.liquidity_event.salt
            }
        }),
    decreases later.len(),
{
    let delta = event.liquidity_event.liquidity_delta;
    i256_neg_exists(delta);
    assert(negation(delta)@ == -delta@);
    let only = seq![event];
    assert(only.drop_last() =~= Seq::<StoredEvent>::empty());
    assert(only.last() == event);
    assert(inverse_events(only.drop_last(), from_block, to_block).len() == 0);
    let rest = inverse_events(earlier, from_block, to_block);
    if later.len() == 0 {
        assert(earlier + later =~= earlier);
        assert(inverse_events(later, from_block, to_block) + rest =~= rest);
    } else {
        let front = later.drop_last();
        assert((earlier + later).drop_last() =~= earlier + front);
        assert((earlier + later).last() == later.last());
        events_are_undone_backwards(earlier, front, event, from_block, to_block);
        let inner = inverse_events(front, from_block, to_block);
        let one = seq![inverse_of(later.last())];
        assert(one + (inner + rest) =~= (one + inner) + rest);
    }
}

/// The pools that updates are about are those that a swap, a change of liquidity or of
/// fees, a price, a configuration or a removal among them names, and no other.
pub proof fn affected_pools_are_named(updates: Seq<PoolUpdate>, id: PoolId)
    ensures
        affected_pools(updates).contains(id) <==> exists|i: int|
            0 <= i < updates.len() && is_about(#[trigger] updates[i], id),
    decreases updates.len(),
{
    if updates.len() != 0 {
        let front = updates.drop_last();
        affected_pools_are_named(front, id);
        assert(updates[updates.len() - 1] == updates.last());
        if exists|i: int| 0 <= i < front.len() && is_about(#[trigger] front[i], id) {
            let i = choose|i: int| 0 <= i < front.len() && is_about(#[trigger] front[i], id);
            assert(updates[i] == front[i]);
        }
        if exists|i: int| 0 <= i < updates.len() && is_about(#[trigger] updates[i], id) {
            let i = choose|i: int| 0 <= i < updates.len() && is_about(#[trigger] updates[i], id);
            if i < front.len() {
                assert(front[i] == updates[i]);
            }
        }
    }
}

/// Whether an update is one of a swap, a change of liquidity or of fees, a price, a
/// configuration or a removal, of a pool.
pub open spec fn is_about(update: PoolUpdate, id: PoolId) -> bool {
    ||| update matches PoolUpdate::SwapEvent { pool_id, .. } && pool_id == id
    ||| update matches PoolUpdate::LiquidityEvent { pool_id, .. } && pool_id == id
    ||| update matches PoolUpdate::UpdatedSlot0 { pool_id, .. } && pool_id == id
    ||| update matches PoolUpdate::PoolConfigured { pool_id, .. } && pool_id == id
    ||| update matches PoolUpdate::PoolRemoved { pool_id, .. } && pool_id == id
    ||| update matches PoolUpdate::FeeUpdate { pool_id, .. } && pool_id == id
}

/// In a consistent registry the price of a pool is queried by the identifier that it
/// goes by on chain, whichever of its two identifiers it is named by; for one that is
/// neither, nothing is queried.
pub proof fn price_is_queried_on_chain(registry: RegistryView, id: PoolId)
    requires
        is_consistent(registry),
    ensures
        registry.pools.contains_key(id) ==> chain_id(registry, id) == Some(
            pool_id_of(private_key_of(registry.pools[id])),
        ),
        registry.pools.contains_key(id) && !registry.pools.contains_key(
            pool_id_of(private_key_of(registry.pools[id])),
        ) ==> chain_id(registry, pool_id_of(private_key_of(registry.pools[id]))) == Some(
            pool_id_of(private_key_of(registry.pools[id])),
        ),
        !registry.pools.contains_key(id) && !registry.reverse_conversion_map.contains_key(id)
            ==> chain_id(registry, id) is None,
{
    assert(registry.pools.dom().contains(id) == registry.conversion_map.dom().contains(id));
    if registry.pools.contains_key(id) {
        let private = pool_id_of(private_key_of(registry.pools[id]));
        assert(registry.pools.dom().contains(private) == registry.conversion_map.dom().contains(
            private,
        ));
    }
}

/// The ranges in which blocks are fetched again follow each other without a gap, from
/// the first block to the last, and each but the last spans a hundred blocks.
pub proof fn ranges_follow_each_other(from_block: int, to_block: int)
    requires
        0 <= from_block,
        to_block <= u64::MAX,
    ensures
        ({
            let ranges = chunk_ranges(from_block, to_block);
            &&& from_block > to_block <==> ranges.len() == 0
            &&& ranges.len() > 0 ==> ranges[0].0 == from_block && ranges.last().1 == to_block
            &&& forall|i: int|
                0 <= i < ranges.len() ==> (#[trigger] ranges[i]).0 <= ranges[i].1 && ranges[i].1
                    - ranges[i].0 < 100 && (i < ranges.len() - 1 ==> ranges[i].1 - ranges[i].0
                    == 99)
            &&& forall|i: int, j: int|
                0 <= i && j == i + 1 && j < ranges.len() ==> (#[trigger] ranges[j]).0 == (
                #[trigger] ranges[i]).1 + 1
        }),
    decreases to_block - from_block + 1,
{
    if from_block <= to_block {
        let end = if from_block + 99 <= to_block {
            from_block + 99
        } else {
            to_block
        };
        let ranges = chunk_ranges(from_block, to_block);
        let rest = chunk_ranges(end + 1, to_block);
        ranges_follow_each_other(end + 1, to_block);
        assert(ranges =~= seq![(from_block as u64, end as u64)] + rest);
        assert forall|i: int| 0 <= i < ranges.len() implies (#[trigger] ranges[i]).0 <= ranges[i].1
            && ranges[i].1 - ranges[i].0 < 100 && (i < ranges.len() - 1 ==> ranges[i].1
            - ranges[i].0 == 99) by {
            if i > 0 {
                assert(ranges[i] == rest[i - 1]);
            }
        }
        assert forall|i: int, j: int| 0 <= i && j == i + 1 && j < ranges.len() implies (
        #[trigger] ranges[j]).0 == (#[trigger] ranges[i]).1 + 1 by {
            assert(ranges[j] == rest[j - 1]);
            if i > 0 {
                assert(ranges[i] == rest[i - 1]);
            }
        }
        if rest.len() > 0 {
            assert(ranges.last() == rest.last());
        }
    }
}

/// A price that was queried again comes as an update of its pool with that price, each
/// in its turn.
pub proof fn queried_prices_become_updates(prices: Seq<(PoolId, Slot0Data)>)
    ensures
        price_updates(prices).len() == prices.len(),
        forall|i: int|
            0 <= i < prices.len() ==> (#[trigger] price_updates(prices)[i]
                matches PoolUpdate::UpdatedSlot0 { pool_id, data } && pool_id == prices[i].0 && data
                == prices[i].1),
{
}

} // verus!
