//! What a service that follows pools knows of them, held against the chain.
use vstd::prelude::*;

use crate::baseline_pool_factory::{
    bitmap_of, loaded_tick_has_its_net, one_entry_per_tick, ticks_of, ticks_of_are_initialized,
    TickData,
};
use crate::batch_effect::{
    are_of_provider, batch_reaches_pool, block_brings_its_events, chain_after, chain_after_concat,
    chunks_are_of_provider, events_of, events_of_concat, events_on_chain, is_event_of, is_followed,
    is_of_provider, updates_of_block, updates_of_chunks, ChainBlock,
};
use crate::events::{modify_liquidity_of, swap_of, Log};
use crate::liquidity_base::{liquidity_fits, net_at, LiquidityView};
use crate::pool_manager_service::{
    apply_step, batch_step, dispatch_step, events_step, idle_step, process_all, process_step,
    with_public_id, with_public_ids, ServiceView,
};
use crate::pool_registry::{is_consistent, public_id, RegistryView};
use crate::pool_state::{with_liquidity_event, with_slot0};
use crate::pool_update_provider::{
    can_invert, history_cutoff, inverse_events, inverse_of, liquidity_update_of, liquidity_updates,
    negation, price_updates, swap_updates, BackfillChunk, ProviderView, StoredEvent,
};
use crate::reorg::{total, total_permutes, updates_of};
use crate::shared_pools::{pools_after, pools_after_all};
use crate::sorting::{stable_sort, stable_sort_permutes};
use crate::tick_info::TickInfo;
use crate::updates::{ModifyLiquidityEventData, PoolUpdate, Slot0Data, SwapEventData};
use crate::words::{half_256, i256_neg_exists, PoolId};

verus! {

/// A pool of a consistent registry is followed once it is watched, where only
/// pools of the registry are.
pub proof fn registered_pool_is_followed(
    registry: RegistryView,
    watched: Set<PoolId>,
    public: PoolId,
)
    requires
        is_consistent(registry),
        registry.conversion_map.contains_key(public),
        watched.contains(registry.conversion_map[public]),
        forall|x: PoolId| #[trigger]
            watched.contains(x) ==> registry.reverse_conversion_map.contains_key(x),
    ensures
        is_followed(registry, watched, public, registry.conversion_map[public]),
{
    let id = registry.conversion_map[public];
    assert forall|x: PoolId| #[trigger] watched.contains(x) implies (public_id(registry, x)
        == public <==> x == id) by {
        assert(registry.reverse_conversion_map.contains_key(x));
    }
}

/// The updates of one log, taken in by a service on their own.
proof fn one_update_is_applied(view: ServiceView, update: PoolUpdate)
    requires
        !view.channel_mode,
        update is SwapEvent || update is LiquidityEvent,
    ensures
        batch_step(view, seq![update]).view.pools.pools == pools_after(
            view.pools.pools,
            with_public_id(view.registry, update),
        ),
{
    let renamed = with_public_id(view.registry, update);
    let updates = with_public_ids(view.registry, seq![update]);
    assert(updates =~= seq![renamed]);
    assert(updates.drop_last() =~= Seq::<PoolUpdate>::empty());
    assert(stable_sort(updates.drop_last()) =~= Seq::<PoolUpdate>::empty());
    assert(stable_sort(updates) =~= seq![renamed]);
    assert(pools_after_all(view.pools.pools, updates.drop_last()) == view.pools.pools);
    let applied = apply_step(view, updates).view;
    assert(process_all(applied, updates.drop_last()).view == applied);
    assert(process_step(applied, renamed).view == applied);
}

/// A swap on chain reaches its pool: a service that follows the pool takes over
/// the price, the tick and the liquidity that the log gives.
pub proof fn followed_swap_reaches_its_pool(
    view: ServiceView,
    watched: Set<PoolId>,
    public: PoolId,
    log: Log,
    block: u64,
    event: SwapEventData,
)
    requires
        !view.channel_mode,
        is_consistent(view.registry),
        view.registry.conversion_map.contains_key(public),
        view.pools.pools.contains_key(public),
        watched.contains(view.registry.conversion_map[public]),
        swap_of(log) == Some((view.registry.conversion_map[public], event)),
    ensures
        ({
            let after = batch_step(view, swap_updates(watched, log, block)).view.pools.pools;
            after == view.pools.pools.insert(
                public,
                with_slot0(
                    view.pools.pools[public],
                    event.tick,
                    event.sqrt_price_x96@,
                    event.liquidity,
                ),
            )
        }),
{
    let updates = swap_updates(watched, log, block);
    assert(updates =~= seq![updates[0]]);
    one_update_is_applied(view, updates[0]);
}

/// A change of liquidity on chain reaches its pool: a service that follows the
/// pool adds the liquidity between the ticks that the log gives.
pub proof fn followed_liquidity_reaches_its_pool(
    view: ServiceView,
    watched: Set<PoolId>,
    public: PoolId,
    log: Log,
    block: u64,
    event: ModifyLiquidityEventData,
)
    requires
        !view.channel_mode,
        is_consistent(view.registry),
        view.registry.conversion_map.contains_key(public),
        view.pools.pools.contains_key(public),
        watched.contains(view.registry.conversion_map[public]),
        modify_liquidity_of(log) == Some((view.registry.conversion_map[public], event)),
    ensures
        ({
            let after = batch_step(view, liquidity_updates(watched, log, block)).view.pools.pools;
            after == view.pools.pools.insert(
                public,
                with_liquidity_event(
                    view.pools.pools[public],
                    event.tick_lower,
                    event.tick_upper,
                    event.liquidity_delta@,
                ),
            )
        }),
{
    let updates = liquidity_updates(watched, log, block);
    assert(updates =~= seq![updates[0]]);
    one_update_is_applied(view, updates[0]);
}

/// Whether what is known of a pool is what is on chain, as far as a band of
/// ticks goes: the price, the liquidity there and the net liquidity of every
/// tick of the band, none of which is missing.
pub open spec fn agrees(known: LiquidityView, truth: LiquidityView, band: Set<i32>) -> bool {
    &&& known.tick_spacing == truth.tick_spacing
    &&& known.tick == truth.tick
    &&& known.sqrt_price == truth.sqrt_price
    &&& known.liquidity == truth.liquidity
    &&& forall|t: i32| #[trigger]
        band.contains(t) ==> net_at(known.ticks, t) == net_at(truth.ticks, t) && (
        truth.ticks.contains_key(t) ==> known.ticks.contains_key(t))
}

/// Whether the numbers that an event changes fit for what is known of a pool if
/// and only if they do on chain.
pub open spec fn fits_alike(
    known: LiquidityView,
    truth: LiquidityView,
    event: PoolUpdate,
) -> bool {
    event matches PoolUpdate::LiquidityEvent { event, .. } ==> liquidity_fits(
        known,
        event.tick_lower,
        event.tick_upper,
        event.liquidity_delta@,
    ) == liquidity_fits(truth, event.tick_lower, event.tick_upper, event.liquidity_delta@)
}

/// Whether events in turn fit for what is known of a pool as they do on chain.
pub open spec fn fit_alike(
    known: LiquidityView,
    truth: LiquidityView,
    events: Seq<PoolUpdate>,
) -> bool
    decreases events.len(),
{
    events.len() == 0 || {
        &&& fit_alike(known, truth, events.drop_last())
        &&& fits_alike(
            chain_after(known, events.drop_last()),
            chain_after(truth, events.drop_last()),
            events.last(),
        )
    }
}

/// Events leave what is known in agreement with the chain, wherever the ticks
/// lie that they change.
pub proof fn events_keep_agreement(
    known: LiquidityView,
    truth: LiquidityView,
    events: Seq<PoolUpdate>,
    band: Set<i32>,
)
    requires
        agrees(known, truth, band),
        fit_alike(known, truth, events),
    ensures
        agrees(chain_after(known, events), chain_after(truth, events), band),
    decreases events.len(),
{
    if events.len() != 0 {
        let front = events.drop_last();
        events_keep_agreement(known, truth, front, band);
        let before = chain_after(known, front);
        let then_before = chain_after(truth, front);
        let after = chain_after(known, events);
        let then = chain_after(truth, events);
        assert forall|t: i32| #[trigger] band.contains(t) implies net_at(after.ticks, t) == net_at(
            then.ticks,
            t,
        ) && (then.ticks.contains_key(t) ==> after.ticks.contains_key(t)) by {
            assert(net_at(before.ticks, t) == net_at(then_before.ticks, t));
            match events.last() {
                PoolUpdate::LiquidityEvent { event, .. } => {
                    assert(t == event.tick_lower ==> net_at(before.ticks, event.tick_lower)
                        == net_at(then_before.ticks, event.tick_lower));
                    assert(t == event.tick_upper ==> net_at(before.ticks, event.tick_upper)
                        == net_at(then_before.ticks, event.tick_upper));
                },
                _ => {},
            }
        }
    }
}

/// Whether an event changes liquidity only at ticks of a band.
pub open spec fn is_within(event: PoolUpdate, band: Set<i32>) -> bool {
    event matches PoolUpdate::LiquidityEvent { event, .. } ==> band.contains(event.tick_lower)
        && band.contains(event.tick_upper)
}

/// Events that change liquidity only at ticks of a band in agreement fit alike.
pub proof fn events_within_band_fit_alike(
    known: LiquidityView,
    truth: LiquidityView,
    events: Seq<PoolUpdate>,
    band: Set<i32>,
)
    requires
        agrees(known, truth, band),
        forall|i: int| 0 <= i < events.len() ==> is_within(#[trigger] events[i], band),
    ensures
        fit_alike(known, truth, events),
    decreases events.len(),
{
    if events.len() != 0 {
        let front = events.drop_last();
        let last = events[events.len() - 1];
        assert forall|i: int| 0 <= i < front.len() implies is_within(#[trigger] front[i], band) by {
            assert(front[i] == events[i]);
        }
        events_within_band_fit_alike(known, truth, front, band);
        events_keep_agreement(known, truth, front, band);
        assert(is_within(last, band));
        let before = chain_after(known, front);
        let then = chain_after(truth, front);
        match last {
            PoolUpdate::LiquidityEvent { event, .. } => {
                assert(net_at(before.ticks, event.tick_lower) == net_at(
                    then.ticks,
                    event.tick_lower,
                ));
                assert(net_at(before.ticks, event.tick_upper) == net_at(
                    then.ticks,
                    event.tick_upper,
                ));
            },
            _ => {},
        }
    }
}

/// A block leaves a followed pool in agreement with the chain, as long as it is
/// not removed.
pub proof fn block_keeps_agreement(
    view: ServiceView,
    provider: ProviderView,
    block: ChainBlock,
    truth: LiquidityView,
    public: PoolId,
    id: PoolId,
    band: Set<i32>,
)
    requires
        !view.channel_mode,
        is_followed(view.registry, provider.watched, public, id),
        view.pools.pools.contains_key(public),
        agrees(view.pools.pools[public].liquidity, truth, band),
        fit_alike(view.pools.pools[public].liquidity, truth, events_on_chain(block, id)),
    ensures
        ({
            let after = events_step(view, updates_of_block(provider, block), false).view;
            &&& after.pools.pools.contains_key(public) ==> agrees(
                after.pools.pools[public].liquidity,
                chain_after(truth, events_on_chain(block, id)),
                band,
            )
            &&& after.pending == view.pending
            &&& !after.channel_mode
        }),
{
    block_brings_its_events(provider, block, view.registry, public, id);
    batch_reaches_pool(view, updates_of_block(provider, block), public);
    events_keep_agreement(
        view.pools.pools[public].liquidity,
        truth,
        events_on_chain(block, id),
        band,
    );
}

/// Whether ticks that were loaded are as on chain.
pub open spec fn are_on_chain(
    ticks: Map<i32, TickInfo>,
    truth: LiquidityView,
) -> bool {
    forall|t: i32| #[trigger]
        ticks.contains_key(t) ==> truth.ticks.contains_key(t) && ticks[t].liquidity_net == net_at(
            truth.ticks,
            t,
        )
}

/// Whether each tick of a set was loaded, or is known as it is on chain.
pub open spec fn covers(
    ticks: Map<i32, TickInfo>,
    known: LiquidityView,
    truth: LiquidityView,
    more: Set<i32>,
) -> bool {
    forall|t: i32| #[trigger]
        more.contains(t) ==> ticks.contains_key(t) || (net_at(known.ticks, t) == net_at(
            truth.ticks,
            t,
        ) && (truth.ticks.contains_key(t) ==> known.ticks.contains_key(t)))
}

/// Whether what the factory has loaded can be taken in: ticks of the pool as
/// they are on chain, of which the set tells how far they reach, or ticks of
/// another pool, or another pool.
pub open spec fn is_sound_load(
    view: ServiceView,
    truth: LiquidityView,
    update: PoolUpdate,
    public: PoolId,
    more: Set<i32>,
) -> bool {
    match update {
        PoolUpdate::NewTicks { pool_id, ticks, .. } => pool_id == public ==> are_on_chain(
            ticks@,
            truth,
        ) && covers(ticks@, view.pools.pools[public].liquidity, truth, more),
        PoolUpdate::NewPoolState { pool_id, .. } => pool_id != public,
        _ => false,
    }
}

/// The band that is known of a pool after a load: wider by the ticks of the
/// pool that were loaded.
pub open spec fn band_with(
    band: Set<i32>,
    update: PoolUpdate,
    public: PoolId,
    more: Set<i32>,
) -> Set<i32> {
    match update {
        PoolUpdate::NewTicks { pool_id, .. } => if pool_id == public {
            band.union(more)
        } else {
            band
        },
        _ => band,
    }
}

/// What the factory has loaded leaves a pool in agreement with the chain, and
/// more ticks of the pool widen the band that they agree on.
pub proof fn load_widens_agreement(
    view: ServiceView,
    update: PoolUpdate,
    truth: LiquidityView,
    public: PoolId,
    band: Set<i32>,
    more: Set<i32>,
)
    requires
        !view.channel_mode,
        view.pools.pools.contains_key(public),
        agrees(view.pools.pools[public].liquidity, truth, band),
        is_sound_load(view, truth, update, public, more),
    ensures
        ({
            let after = dispatch_step(view, update).view;
            &&& after.pools.pools.contains_key(public)
            &&& agrees(
                after.pools.pools[public].liquidity,
                truth,
                band_with(band, update, public, more),
            )
            &&& after.pending == view.pending
            &&& !after.channel_mode
        }),
{
    let updates = seq![update];
    assert(updates.drop_last() =~= Seq::<PoolUpdate>::empty());
    assert(stable_sort(updates.drop_last()) =~= Seq::<PoolUpdate>::empty());
    assert(stable_sort(updates) =~= updates);
    let pools = view.pools.pools;
    assert(pools_after_all(pools, updates.drop_last()) == pools);
    let applied = apply_step(view, updates).view;
    assert(applied.pools.pools == pools_after(pools, update));
    assert(process_all(applied, updates.drop_last()).view == applied);
    assert(process_step(applied, update).view == applied);
    let known = pools[public].liquidity;
    let after = applied.pools.pools[public].liquidity;
    let wider = band_with(band, update, public, more);
    assert forall|t: i32| #[trigger] wider.contains(t) implies net_at(after.ticks, t) == net_at(
        truth.ticks,
        t,
    ) && (truth.ticks.contains_key(t) ==> after.ticks.contains_key(t)) by {
        assert(band.contains(t) ==> net_at(known.ticks, t) == net_at(truth.ticks, t));
        if !band.contains(t) {
            assert(more.contains(t));
        }
    }
}

/// What an event adds to the net liquidity of a tick.
pub open spec fn tick_change(event: PoolUpdate, tick: i32) -> int {
    match event {
        PoolUpdate::LiquidityEvent { event, .. } => if tick == event.tick_lower {
            event.liquidity_delta@
        } else if tick == event.tick_upper {
            -event.liquidity_delta@
        } else {
            0
        },
        _ => 0,
    }
}

/// What events add to the net liquidity of a tick, as a function of the event.
pub open spec fn changes_at(tick: i32) -> spec_fn(PoolUpdate) -> int {
    |event: PoolUpdate| tick_change(event, tick)
}

/// Whether an event changes the net liquidity of a tick.
pub open spec fn touches(event: PoolUpdate, tick: i32) -> bool {
    event matches PoolUpdate::LiquidityEvent { event, .. } && (tick == event.tick_lower || tick
        == event.tick_upper)
}

/// Whether changes of liquidity among events are positions, and the numbers that
/// they change fit in turn.
pub open spec fn changes_fit(known: LiquidityView, events: Seq<PoolUpdate>) -> bool
    decreases events.len(),
{
    events.len() == 0 || {
        &&& changes_fit(known, events.drop_last())
        &&& events.last() matches PoolUpdate::LiquidityEvent { event, .. } ==> event.tick_lower
            < event.tick_upper && liquidity_fits(
            chain_after(known, events.drop_last()),
            event.tick_lower,
            event.tick_upper,
            event.liquidity_delta@,
        )
    }
}

/// What events come to whose changes fit: the net liquidity of a tick grows by
/// the sum of what they add, and the ticks that they change are known.
pub proof fn changes_add_up(known: LiquidityView, events: Seq<PoolUpdate>, tick: i32)
    requires
        changes_fit(known, events),
    ensures
        ({
            let after = chain_after(known, events);
            &&& after.tick_spacing == known.tick_spacing
            &&& net_at(after.ticks, tick) == net_at(known.ticks, tick) + total(
                events,
                changes_at(tick),
            )
            &&& after.ticks.contains_key(tick) <==> known.ticks.contains_key(tick) || exists|
                i: int,
            |
                0 <= i < events.len() && touches(#[trigger] events[i], tick)
        }),
    decreases events.len(),
{
    if events.len() != 0 {
        let front = events.drop_last();
        let last = events[events.len() - 1];
        changes_add_up(known, front, tick);
        let before = chain_after(known, front);
        let after = chain_after(known, events);
        assert(changes_at(tick)(last) == tick_change(last, tick));
        if exists|i: int| 0 <= i < front.len() && touches(#[trigger] front[i], tick) {
            let i = choose|i: int| 0 <= i < front.len() && touches(#[trigger] front[i], tick);
            assert(touches(events[i], tick));
        }
        if exists|i: int| 0 <= i < events.len() && touches(#[trigger] events[i], tick) {
            let i = choose|i: int| 0 <= i < events.len() && touches(#[trigger] events[i], tick);
            if i < front.len() {
                assert(touches(front[i], tick));
            }
        }
        assert(after.ticks.contains_key(tick) <==> before.ticks.contains_key(tick) || touches(
            last,
            tick,
        ));
    }
}

/// The sum over updates and more updates.
proof fn total_concat(
    a: Seq<PoolUpdate>,
    b: Seq<PoolUpdate>,
    change: spec_fn(PoolUpdate) -> int,
)
    ensures
        total(a + b, change) == total(a, change) + total(b, change),
    decreases b.len(),
{
    if b.len() == 0 {
        assert(a + b =~= a);
    } else {
        assert((a + b).drop_last() =~= a + b.drop_last());
        total_concat(a, b.drop_last(), change);
    }
}

/// The changes of liquidity among events.
pub open spec fn changes_of(events: Seq<PoolUpdate>) -> Seq<PoolUpdate>
    decreases events.len(),
{
    if events.len() == 0 {
        Seq::empty()
    } else if events.last() is LiquidityEvent {
        changes_of(events.drop_last()).push(events.last())
    } else {
        changes_of(events.drop_last())
    }
}

/// Only changes of liquidity add to the net liquidity of a tick.
proof fn total_of_changes(events: Seq<PoolUpdate>, tick: i32)
    ensures
        total(changes_of(events), changes_at(tick)) == total(events, changes_at(tick)),
    decreases events.len(),
{
    if events.len() != 0 {
        let front = events.drop_last();
        total_of_changes(front, tick);
        if events.last() is LiquidityEvent {
            assert(changes_of(events).drop_last() =~= changes_of(front));
        } else {
            assert(changes_at(tick)(events.last()) == 0);
        }
    }
}

/// What the undoing of the events of a pool adds is the opposite of what the
/// events add.
proof fn inverse_adds_opposite(
    history: Seq<StoredEvent>,
    from_block: u64,
    to_block: u64,
    registry: RegistryView,
    public: PoolId,
    tick: i32,
)
    requires
        can_invert(history, from_block, to_block),
        forall|i: int|
            0 <= i < history.len() ==> from_block <= (#[trigger] history[i]).block <= to_block,
    ensures
        total(
            events_of(inverse_events(history, from_block, to_block), registry, public),
            changes_at(tick),
        ) == -total(events_of(updates_of(history), registry, public), changes_at(tick)),
        events_of(inverse_events(history, from_block, to_block), registry, public).len()
            == events_of(updates_of(history), registry, public).len(),
        are_of_provider(inverse_events(history, from_block, to_block)),
    decreases history.len(),
{
    let change = changes_at(tick);
    if history.len() != 0 {
        let front = history.drop_last();
        let last = history[history.len() - 1];
        assert forall|i: int| 0 <= i < front.len() implies from_block <= (
        #[trigger] front[i]).block <= to_block by {
            assert(front[i] == history[i]);
        }
        assert(can_invert(front, from_block, to_block)) by {
            assert forall|i: int|
                0 <= i < front.len() && from_block <= (#[trigger] front[i]).block
                    <= to_block implies front[i].liquidity_event.liquidity_delta@
                != -half_256() by {
                assert(front[i] == history[i]);
            }
        }
        inverse_adds_opposite(front, from_block, to_block, registry, public, tick);
        i256_neg_exists(last.liquidity_event.liquidity_delta);
        assert(negation(last.liquidity_event.liquidity_delta)@
            == -last.liquidity_event.liquidity_delta@);
        let undo = inverse_of(last);
        let rest = inverse_events(front, from_block, to_block);
        let one = events_of(seq![undo], registry, public);
        events_of_concat(seq![undo], rest, registry, public);
        total_concat(one, events_of(rest, registry, public), change);
        assert(seq![undo].drop_last() =~= Seq::<PoolUpdate>::empty());
        assert(events_of(seq![undo].drop_last(), registry, public) =~= Seq::<PoolUpdate>::empty());
        assert(seq![undo].last() == undo);
        let updates = updates_of(history);
        let event = liquidity_update_of(last);
        assert(updates.drop_last() =~= updates_of(front));
        assert(updates.last() == event);
        assert(is_event_of(undo, registry, public) == is_event_of(event, registry, public));
        assert(change(undo) == -change(event));
        if is_event_of(undo, registry, public) {
            assert(one =~= seq![undo]);
            assert(one.drop_last() =~= Seq::<PoolUpdate>::empty());
            assert(total(one.drop_last(), change) == 0);
            assert(total(one, change) == change(undo));
            assert(events_of(updates, registry, public).drop_last() =~= events_of(
                updates_of(front),
                registry,
                public,
            ));
        } else {
            assert(one =~= Seq::<PoolUpdate>::empty());
        }
        let all = inverse_events(history, from_block, to_block);
        assert forall|i: int| 0 <= i < all.len() implies is_of_provider(#[trigger] all[i]) by {
            if i > 0 {
                assert(all[i] == rest[i - 1]);
            }
        }
    } else {
        assert(updates_of(history) =~= Seq::<PoolUpdate>::empty());
    }
}

/// What the provider makes of a reorganization: the events that undo those of
/// its history, those that were fetched again, the prices that were queried
/// again, and the reorganization itself.
pub open spec fn updates_of_reorg(
    provider: ProviderView,
    fresh: Seq<PoolUpdate>,
    prices: Seq<(PoolId, Slot0Data)>,
) -> Seq<PoolUpdate> {
    let from_block = history_cutoff(provider.current_block);
    let to_block = provider.current_block;
    (inverse_events(provider.history, from_block, to_block) + fresh + price_updates(prices)).push(
        PoolUpdate::Reorg { from_block, to_block },
    )
}

/// A reorganization of the chain, as a service meets it: the pool as it was on
/// chain before the blocks that were replaced, its events in these and in those
/// that replaced them, what was fetched again, and the prices that were queried
/// again.
pub struct ChainReorg {
    pub provider: ProviderView,
    pub base: LiquidityView,
    pub old: Seq<PoolUpdate>,
    pub new: Seq<PoolUpdate>,
    pub chunks: Seq<BackfillChunk>,
    pub prices: Seq<(PoolId, Slot0Data)>,
}

/// Whether a price is that of a pool on chain.
pub open spec fn is_price_of(data: Slot0Data, truth: LiquidityView) -> bool {
    &&& data.tick == truth.tick
    &&& data.sqrt_price_x96@ == truth.sqrt_price
    &&& data.liquidity == truth.liquidity
}

/// Whether a pool can be followed through a reorganization: the history holds
/// the changes of its liquidity in the blocks that were replaced, what was
/// fetched again holds its events in those that replaced them, its price was
/// queried again unless it had no event in any of them, and every number fits.
pub open spec fn is_sound_reorg(
    view: ServiceView,
    truth: LiquidityView,
    reorg: ChainReorg,
    public: PoolId,
    id: PoolId,
) -> bool {
    let history = reorg.provider.history;
    let from_block = history_cutoff(reorg.provider.current_block);
    let to_block = reorg.provider.current_block;
    let fresh = updates_of_chunks(reorg.provider, reorg.chunks);
    let undo = inverse_events(history, from_block, to_block);
    let then = chain_after(reorg.base, reorg.new);
    &&& is_followed(view.registry, reorg.provider.watched, public, id)
    &&& truth == chain_after(reorg.base, reorg.old)
    &&& can_invert(history, from_block, to_block)
    &&& forall|i: int|
        0 <= i < history.len() ==> from_block <= (#[trigger] history[i]).block <= to_block
    &&& events_of(updates_of(history), view.registry, public).to_multiset() == changes_of(
        reorg.old,
    ).to_multiset()
    &&& events_of(fresh, view.registry, public).to_multiset() == reorg.new.to_multiset()
    &&& (exists|i: int|
        0 <= i < reorg.prices.len() && public_id(view.registry, (#[trigger] reorg.prices[i]).0)
            == public) || (reorg.old.len() == 0 && reorg.new.len() == 0)
    &&& forall|i: int|
        0 <= i < reorg.prices.len() && public_id(view.registry, (#[trigger] reorg.prices[i]).0)
            == public ==> is_price_of(reorg.prices[i].1, then)
    &&& changes_fit(reorg.base, reorg.old)
    &&& changes_fit(reorg.base, reorg.new)
    &&& changes_fit(
        view.pools.pools[public].liquidity,
        stable_sort(events_of(undo + fresh, view.registry, public)),
    )
}

/// The prices of a pool among those that were queried again.
proof fn prices_among(
    prices: Seq<(PoolId, Slot0Data)>,
    registry: RegistryView,
    public: PoolId,
    truth: LiquidityView,
)
    requires
        forall|i: int|
            0 <= i < prices.len() && public_id(registry, (#[trigger] prices[i]).0) == public
                ==> is_price_of(prices[i].1, truth),
    ensures
        ({
            let events = events_of(price_updates(prices), registry, public);
            &&& forall|i: int|
                0 <= i < events.len() ==> #[trigger] events[i] is UpdatedSlot0 && is_price_of(
                    events[i]->UpdatedSlot0_data,
                    truth,
                )
            &&& (exists|i: int|
                0 <= i < prices.len() && public_id(registry, (#[trigger] prices[i]).0) == public)
                ==> events.len() > 0
        }),
    decreases prices.len(),
{
    let updates = price_updates(prices);
    if prices.len() != 0 {
        let front = prices.drop_last();
        let last = prices[prices.len() - 1];
        assert(updates.drop_last() =~= price_updates(front));
        assert(updates.last() == (PoolUpdate::UpdatedSlot0 { pool_id: last.0, data: last.1 }));
        assert forall|i: int|
            0 <= i < front.len() && public_id(registry, (#[trigger] front[i]).0)
                == public implies is_price_of(front[i].1, truth) by {
            assert(front[i] == prices[i]);
        }
        prices_among(front, registry, public, truth);
        if exists|i: int|
            0 <= i < prices.len() && public_id(registry, (#[trigger] prices[i]).0) == public {
            let i = choose|i: int|
                0 <= i < prices.len() && public_id(registry, (#[trigger] prices[i]).0) == public;
            if i < front.len() {
                assert(public_id(registry, front[i].0) == public);
            }
        }
    }
}

/// Prices come after all events, in their order.
proof fn prices_sort_last(events: Seq<PoolUpdate>, prices: Seq<PoolUpdate>)
    requires
        forall|i: int| 0 <= i < prices.len() ==> #[trigger] prices[i] is UpdatedSlot0,
    ensures
        stable_sort(events + prices) == stable_sort(events) + prices,
    decreases prices.len(),
{
    let all = events + prices;
    if prices.len() == 0 {
        assert(all =~= events);
        assert(stable_sort(events) + prices =~= stable_sort(events));
    } else {
        let front = prices.drop_last();
        assert(prices[prices.len() - 1] is UpdatedSlot0);
        assert forall|i: int| 0 <= i < front.len() implies #[trigger] front[i] is UpdatedSlot0 by {
            assert(front[i] == prices[i]);
        }
        assert(all.drop_last() =~= events + front);
        prices_sort_last(events, front);
        assert(stable_sort(all) =~= stable_sort(events) + prices);
    }
}

/// Prices of a pool leave it at that price, with the ticks that it had.
proof fn prices_settle(known: LiquidityView, prices: Seq<PoolUpdate>, truth: LiquidityView)
    requires
        prices.len() > 0,
        forall|i: int|
            0 <= i < prices.len() ==> #[trigger] prices[i] is UpdatedSlot0 && is_price_of(
                prices[i]->UpdatedSlot0_data,
                truth,
            ),
    ensures
        ({
            let after = chain_after(known, prices);
            &&& after.tick == truth.tick
            &&& after.sqrt_price == truth.sqrt_price
            &&& after.liquidity == truth.liquidity
            &&& after.ticks == known.ticks
            &&& after.tick_spacing == known.tick_spacing
        }),
    decreases prices.len(),
{
    let front = prices.drop_last();
    assert(prices[prices.len() - 1] is UpdatedSlot0);
    if front.len() != 0 {
        assert forall|i: int| 0 <= i < front.len() implies #[trigger] front[i] is UpdatedSlot0
            && is_price_of(front[i]->UpdatedSlot0_data, truth) by {
            assert(front[i] == prices[i]);
        }
        prices_settle(known, front, truth);
    } else {
        assert(chain_after(known, front) == known);
    }
}

/// As many events in another order.
proof fn same_number(a: Seq<PoolUpdate>, b: Seq<PoolUpdate>)
    requires
        a.to_multiset() == b.to_multiset(),
    ensures
        a.len() == b.len(),
{
    broadcast use vstd::seq_lib::group_to_multiset_ensures;

    assert(a.len() == a.to_multiset().len() && b.len() == b.to_multiset().len());
}

/// Events that touch a tick still do in another order.
proof fn touching_permutes(a: Seq<PoolUpdate>, b: Seq<PoolUpdate>, tick: i32)
    requires
        a.to_multiset() == b.to_multiset(),
        exists|i: int| 0 <= i < a.len() && touches(#[trigger] a[i], tick),
    ensures
        exists|i: int| 0 <= i < b.len() && touches(#[trigger] b[i], tick),
{
    broadcast use vstd::seq_lib::group_to_multiset_ensures;

    let i = choose|i: int| 0 <= i < a.len() && touches(#[trigger] a[i], tick);
    assert(a.contains(a[i]));
    assert(a.to_multiset().count(a[i]) > 0);
    assert(b.contains(a[i]));
    let k = choose|k: int| 0 <= k < b.len() && b[k] == a[i];
    assert(touches(b[k], tick));
}

/// Undoing changes and making others in their place leaves a tick as the others
/// alone would have.
proof fn exchange_keeps_tick(
    known: LiquidityView,
    base: LiquidityView,
    old: Seq<PoolUpdate>,
    new: Seq<PoolUpdate>,
    undone: Seq<PoolUpdate>,
    fetched: Seq<PoolUpdate>,
    t: i32,
)
    requires
        changes_fit(base, old),
        changes_fit(base, new),
        changes_fit(known, stable_sort(undone + fetched)),
        total(undone, changes_at(t)) == -total(old, changes_at(t)),
        fetched.to_multiset() == new.to_multiset(),
        net_at(known.ticks, t) == net_at(chain_after(base, old).ticks, t),
        chain_after(base, old).ticks.contains_key(t) ==> known.ticks.contains_key(t),
    ensures
        ({
            let after = chain_after(known, stable_sort(undone + fetched));
            let then = chain_after(base, new);
            &&& net_at(after.ticks, t) == net_at(then.ticks, t)
            &&& then.ticks.contains_key(t) ==> after.ticks.contains_key(t)
        }),
{
    let change = changes_at(t);
    let events = undone + fetched;
    let sorted = stable_sort(events);
    stable_sort_permutes(events);
    total_permutes(events, sorted, change);
    total_concat(undone, fetched, change);
    total_permutes(fetched, new, change);
    changes_add_up(known, sorted, t);
    changes_add_up(base, old, t);
    changes_add_up(base, new, t);
    if chain_after(base, new).ticks.contains_key(t) && !base.ticks.contains_key(t) {
        touching_permutes(new, fetched, t);
        let j = choose|j: int| 0 <= j < fetched.len() && touches(#[trigger] fetched[j], t);
        assert(events[undone.len() + j] == fetched[j]);
        assert(touches(events[undone.len() + j], t));
        touching_permutes(events, sorted, t);
    }
}

/// A reorganization leaves a followed pool in agreement with the new chain, as
/// long as it is not removed: the changes of liquidity that were undone and
/// those that came in their place add up, and the price was queried again.
pub proof fn reorg_keeps_agreement(
    view: ServiceView,
    truth: LiquidityView,
    reorg: ChainReorg,
    public: PoolId,
    id: PoolId,
    band: Set<i32>,
)
    requires
        !view.channel_mode,
        view.pools.pools.contains_key(public),
        agrees(view.pools.pools[public].liquidity, truth, band),
        is_sound_reorg(view, truth, reorg, public, id),
    ensures
        ({
            let fresh = updates_of_chunks(reorg.provider, reorg.chunks);
            let updates = updates_of_reorg(reorg.provider, fresh, reorg.prices);
            let after = events_step(view, updates, false).view;
            &&& after.pools.pools.contains_key(public) ==> agrees(
                after.pools.pools[public].liquidity,
                chain_after(reorg.base, reorg.new),
                band,
            )
            &&& after.pending == view.pending
            &&& !after.channel_mode
        }),
{
    let provider = reorg.provider;
    let registry = view.registry;
    let history = provider.history;
    let from_block = history_cutoff(provider.current_block);
    let to_block = provider.current_block;
    let undo = inverse_events(history, from_block, to_block);
    let fresh = updates_of_chunks(provider, reorg.chunks);
    let prices = price_updates(reorg.prices);
    let updates = updates_of_reorg(provider, fresh, reorg.prices);
    let last = PoolUpdate::Reorg { from_block, to_block };
    let known = view.pools.pools[public].liquidity;
    let then = chain_after(reorg.base, reorg.new);
    inverse_adds_opposite(history, from_block, to_block, registry, public, 0);
    chunks_are_of_provider(registry, provider, reorg.chunks, public, id);
    assert(updates == (undo + fresh + prices).push(last));
    assert forall|i: int| 0 <= i < updates.len() implies is_of_provider(#[trigger] updates[i]) by {
        let a = undo.len() as int;
        let b = a + fresh.len();
        let c = b + prices.len();
        if i < a {
            assert(updates[i] == undo[i]);
        } else if i < b {
            assert(updates[i] == fresh[i - a]);
        } else if i < c {
            assert(updates[i] == prices[i - b]);
        }
    }
    batch_reaches_pool(view, updates, public);
    let events = events_of(undo + fresh, registry, public);
    let queried = events_of(prices, registry, public);
    assert(updates.drop_last() =~= undo + fresh + prices);
    assert(updates.last() == last);
    events_of_concat(undo, fresh, registry, public);
    events_of_concat(undo + fresh, prices, registry, public);
    assert(events_of(updates, registry, public) == events + queried);
    prices_among(reorg.prices, registry, public, then);
    prices_sort_last(events, queried);
    let sorted = stable_sort(events);
    let before_prices = chain_after(known, sorted);
    chain_after_concat(known, sorted, queried);
    if queried.len() > 0 {
        prices_settle(before_prices, queried, then);
    } else {
        assert(reorg.old.len() == 0 && reorg.new.len() == 0);
        same_number(events_of(updates_of(history), registry, public), changes_of(reorg.old));
        same_number(events_of(fresh, registry, public), reorg.new);
        assert(events.len() == 0);
        assert(sorted.len() == 0);
        assert(before_prices == known);
    }
    let after = chain_after(known, sorted + queried);
    changes_add_up(known, sorted, 0);
    changes_add_up(reorg.base, reorg.old, 0);
    changes_add_up(reorg.base, reorg.new, 0);
    assert forall|t: i32| #[trigger] band.contains(t) implies net_at(after.ticks, t) == net_at(
        then.ticks,
        t,
    ) && (then.ticks.contains_key(t) ==> after.ticks.contains_key(t)) by {
        inverse_adds_opposite(history, from_block, to_block, registry, public, t);
        total_permutes(
            events_of(updates_of(history), registry, public),
            changes_of(reorg.old),
            changes_at(t),
        );
        total_of_changes(reorg.old, t);
        exchange_keeps_tick(
            known,
            reorg.base,
            reorg.old,
            reorg.new,
            events_of(undo, registry, public),
            events_of(fresh, registry, public),
            t,
        );
    }
}

/// What happens to a service that follows pools: it takes in what the provider
/// makes of a block, or holds that back while something is being loaded until
/// nothing is any more, takes in what the factory has loaded, with the ticks
/// that a load of ticks covers, or meets a reorganization.
pub enum FollowStep {
    Block(ProviderView, ChainBlock),
    HoldBack(ProviderView, ChainBlock),
    Idle,
    Loaded(PoolUpdate, Set<i32>),
    Reorganized(ChainReorg),
}

/// A service and the pool that it follows: the liquidity of the pool on chain at
/// the block that the service has taken in, the band of ticks that were loaded,
/// and the block that is held back.
pub struct Following {
    pub view: ServiceView,
    pub truth: LiquidityView,
    pub band: Set<i32>,
    pub held: Option<(ProviderView, ChainBlock)>,
}

/// A service and the pool that it follows after a step.
pub open spec fn after_step(
    s: Following,
    step: FollowStep,
    public: PoolId,
    id: PoolId,
) -> Following {
    match step {
        FollowStep::Block(provider, block) => Following {
            view: events_step(s.view, updates_of_block(provider, block), false).view,
            truth: chain_after(s.truth, events_on_chain(block, id)),
            ..s
        },
        FollowStep::HoldBack(provider, block) => Following {
            view: events_step(s.view, updates_of_block(provider, block), true).view,
            held: Some((provider, block)),
            ..s
        },
        FollowStep::Idle => Following {
            view: idle_step(s.view, false).view,
            truth: match s.held {
                Some((_, block)) => chain_after(s.truth, events_on_chain(block, id)),
                None => s.truth,
            },
            held: None,
            ..s
        },
        FollowStep::Loaded(update, more) => Following {
            view: dispatch_step(s.view, update).view,
            band: band_with(s.band, update, public, more),
            ..s
        },
        FollowStep::Reorganized(reorg) => Following {
            view: events_step(
                s.view,
                updates_of_reorg(
                    reorg.provider,
                    updates_of_chunks(reorg.provider, reorg.chunks),
                    reorg.prices,
                ),
                false,
            ).view,
            truth: chain_after(reorg.base, reorg.new),
            ..s
        },
    }
}

/// A service and the pool that it follows after steps in turn.
pub open spec fn after_steps(
    s: Following,
    steps: Seq<FollowStep>,
    public: PoolId,
    id: PoolId,
) -> Following
    decreases steps.len(),
{
    if steps.len() == 0 {
        s
    } else {
        after_step(after_steps(s, steps.drop_last(), public, id), steps.last(), public, id)
    }
}

/// Whether a pool can be followed through a step: its events reach it, and the
/// numbers that they change fit for it as they do on chain. One block at most is
/// held back.
pub open spec fn is_sound_step(
    s: Following,
    step: FollowStep,
    public: PoolId,
    id: PoolId,
) -> bool {
    let known = s.view.pools.pools[public].liquidity;
    match step {
        FollowStep::Block(provider, block) => {
            &&& s.held is None
            &&& is_followed(s.view.registry, provider.watched, public, id)
            &&& fit_alike(known, s.truth, events_on_chain(block, id))
        },
        FollowStep::HoldBack(_, _) => s.held is None,
        FollowStep::Idle => s.held matches Some((provider, block)) ==> {
            &&& is_followed(s.view.registry, provider.watched, public, id)
            &&& fit_alike(known, s.truth, events_on_chain(block, id))
        },
        FollowStep::Loaded(update, more) => is_sound_load(s.view, s.truth, update, public, more),
        FollowStep::Reorganized(reorg) => {
            &&& s.held is None
            &&& is_sound_reorg(s.view, s.truth, reorg, public, id)
        },
    }
}

/// Whether a pool can be followed through steps, and is not removed on the way.
pub open spec fn are_sound_steps(
    s: Following,
    steps: Seq<FollowStep>,
    public: PoolId,
    id: PoolId,
) -> bool
    decreases steps.len(),
{
    steps.len() == 0 || {
        &&& are_sound_steps(s, steps.drop_last(), public, id)
        &&& is_sound_step(
            after_steps(s, steps.drop_last(), public, id),
            steps.last(),
            public,
            id,
        )
        &&& after_steps(s, steps, public, id).view.pools.pools.contains_key(public)
    }
}

/// Whether a service knows the pool that it follows as it is on chain, and holds
/// back what it is said to.
pub open spec fn is_in_agreement(s: Following, public: PoolId) -> bool {
    &&& !s.view.channel_mode
    &&& s.view.pools.pools.contains_key(public)
    &&& agrees(s.view.pools.pools[public].liquidity, s.truth, s.band)
    &&& s.view.pending == match s.held {
        Some((provider, block)) => updates_of_block(provider, block),
        None => Seq::empty(),
    }
}

/// A step leaves a service in agreement with the chain.
proof fn step_keeps_agreement(s: Following, step: FollowStep, public: PoolId, id: PoolId)
    requires
        is_in_agreement(s, public),
        is_sound_step(s, step, public, id),
        after_step(s, step, public, id).view.pools.pools.contains_key(public),
    ensures
        is_in_agreement(after_step(s, step, public, id), public),
{
    let view = s.view;
    match step {
        FollowStep::Block(provider, block) => {
            block_keeps_agreement(view, provider, block, s.truth, public, id, s.band);
        },
        FollowStep::HoldBack(provider, block) => {
            let updates = updates_of_block(provider, block);
            assert(Seq::<PoolUpdate>::empty() + updates =~= updates);
        },
        FollowStep::Idle => {
            let idle = ServiceView { pending: Seq::empty(), ..view };
            match s.held {
                Some((provider, block)) => {
                    block_keeps_agreement(idle, provider, block, s.truth, public, id, s.band);
                },
                None => {
                    let nothing = Seq::<PoolUpdate>::empty();
                    batch_reaches_pool(idle, nothing, public);
                    assert(stable_sort(events_of(nothing, view.registry, public)) =~= nothing);
                },
            }
        },
        FollowStep::Loaded(update, more) => {
            load_widens_agreement(view, update, s.truth, public, s.band, more);
        },
        FollowStep::Reorganized(reorg) => {
            reorg_keeps_agreement(view, s.truth, reorg, public, id, s.band);
        },
    }
}

/// A pool that is in agreement with the chain stays so as long as a service
/// follows it.
pub proof fn following_agrees_with_chain(
    s: Following,
    steps: Seq<FollowStep>,
    public: PoolId,
    id: PoolId,
)
    requires
        is_in_agreement(s, public),
        are_sound_steps(s, steps, public, id),
    ensures
        is_in_agreement(after_steps(s, steps, public, id), public),
    decreases steps.len(),
{
    if steps.len() != 0 {
        let front = steps.drop_last();
        following_agrees_with_chain(s, front, public, id);
        step_keeps_agreement(after_steps(s, front, public, id), steps.last(), public, id);
    }
}

/// Whether ticks that were loaded are as on chain: each is there, with its net
/// liquidity.
pub open spec fn reads_chain(fetched: Seq<TickData>, truth: LiquidityView) -> bool {
    &&& one_entry_per_tick(fetched)
    &&& forall|i: int|
        0 <= i < fetched.len() && (#[trigger] fetched[i]).initialized ==> truth.ticks.contains_key(
            fetched[i].tick,
        ) && fetched[i].liquidity_net == net_at(truth.ticks, fetched[i].tick)
}

/// Whether every tick of a band that is known on chain was loaded.
pub open spec fn reads_band(
    fetched: Seq<TickData>,
    truth: LiquidityView,
    band: Set<i32>,
) -> bool {
    forall|t: i32| #[trigger]
        band.contains(t) && truth.ticks.contains_key(t) ==> exists|i: int|
            0 <= i < fetched.len() && (#[trigger] fetched[i]).initialized && fetched[i].tick == t
}

/// The liquidity of a pool made of what was loaded of it.
pub open spec fn loaded_liquidity(truth: LiquidityView, fetched: Seq<TickData>) -> LiquidityView {
    LiquidityView {
        ticks: ticks_of(fetched),
        bitmap: bitmap_of(fetched, truth.tick_spacing as int),
        ..truth
    }
}

/// A tick that was loaded is known with what the chain says of it.
proof fn loaded_tick_is_as_on_chain(fetched: Seq<TickData>, truth: LiquidityView, t: i32)
    requires
        reads_chain(fetched, truth),
        ticks_of(fetched).contains_key(t),
    ensures
        truth.ticks.contains_key(t),
        ticks_of(fetched)[t].liquidity_net == net_at(truth.ticks, t),
        exists|i: int|
            0 <= i < fetched.len() && (#[trigger] fetched[i]).initialized && fetched[i].tick == t,
{
    ticks_of_are_initialized(fetched, t);
    let i = choose|i: int|
        0 <= i < fetched.len() && (#[trigger] fetched[i]).initialized && fetched[i].tick == t;
    loaded_tick_has_its_net(fetched, i);
}

/// A pool that is loaded is in agreement with the chain on the band of ticks
/// that was loaded.
pub proof fn loaded_pool_agrees_with_chain(
    truth: LiquidityView,
    fetched: Seq<TickData>,
    band: Set<i32>,
)
    requires
        reads_chain(fetched, truth),
        reads_band(fetched, truth, band),
    ensures
        agrees(loaded_liquidity(truth, fetched), truth, band),
{
    let loaded = ticks_of(fetched);
    assert forall|t: i32| #[trigger] band.contains(t) implies net_at(loaded, t) == net_at(
        truth.ticks,
        t,
    ) && (truth.ticks.contains_key(t) ==> loaded.contains_key(t)) by {
        ticks_of_are_initialized(fetched, t);
        if loaded.contains_key(t) {
            loaded_tick_is_as_on_chain(fetched, truth, t);
        }
    }
}

/// A pool that was loaded once and followed since is what is loaded afresh
/// later: it has the price, the tick, the tick spacing and the liquidity of the
/// fresh one, and every tick of the fresh one with the same net liquidity, where
/// the fresh one has no ticks beyond those that were loaded, first or later.
pub proof fn followed_pool_is_as_loaded_afresh(
    s: Following,
    fetched: Seq<TickData>,
    steps: Seq<FollowStep>,
    fetched_afresh: Seq<TickData>,
    public: PoolId,
    id: PoolId,
)
    requires
        !s.view.channel_mode,
        s.view.pending.len() == 0,
        s.held is None,
        // the pool was loaded
        s.view.pools.pools.contains_key(public),
        s.view.pools.pools[public].liquidity == loaded_liquidity(s.truth, fetched),
        reads_chain(fetched, s.truth),
        reads_band(fetched, s.truth, s.band),
        // and followed
        are_sound_steps(s, steps, public, id),
        // and is loaded afresh
        reads_chain(fetched_afresh, after_steps(s, steps, public, id).truth),
        forall|i: int|
            0 <= i < fetched_afresh.len() ==> after_steps(s, steps, public, id).band.contains(
                (#[trigger] fetched_afresh[i]).tick,
            ),
    ensures
        ({
            let after = after_steps(s, steps, public, id);
            let known = after.view.pools.pools[public].liquidity;
            let fresh = loaded_liquidity(after.truth, fetched_afresh);
            &&& after.view.pools.pools.contains_key(public)
            &&& known.tick == fresh.tick
            &&& known.liquidity == fresh.liquidity
            &&& known.sqrt_price == fresh.sqrt_price
            &&& known.tick_spacing == fresh.tick_spacing
            &&& forall|t: i32| #[trigger]
                fresh.ticks.contains_key(t) ==> known.ticks.contains_key(t)
                    && known.ticks[t].liquidity_net == fresh.ticks[t].liquidity_net
        }),
{
    loaded_pool_agrees_with_chain(s.truth, fetched, s.band);
    assert(s.view.pending =~= Seq::<PoolUpdate>::empty());
    following_agrees_with_chain(s, steps, public, id);
    let after = after_steps(s, steps, public, id);
    let known = after.view.pools.pools[public].liquidity;
    let then = after.truth;
    let fresh = loaded_liquidity(then, fetched_afresh);
    assert forall|t: i32| #[trigger] fresh.ticks.contains_key(t) implies known.ticks.contains_key(t)
        && known.ticks[t].liquidity_net == fresh.ticks[t].liquidity_net by {
        loaded_tick_is_as_on_chain(fetched_afresh, then, t);
        let i = choose|i: int|
            0 <= i < fetched_afresh.len() && (#[trigger] fetched_afresh[i]).initialized
                && fetched_afresh[i].tick == t;
        assert(after.band.contains(fetched_afresh[i].tick));
        assert(net_at(known.ticks, t) == net_at(then.ticks, t));
    }
}

} // verus!
