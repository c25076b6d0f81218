//! What following updates keeps, and what a reorganization undoes.
use vstd::prelude::*;

use crate::liquidity_base::{
    inverse_liquidity_restores, liquidity_fits, net_at, with_liquidity, LiquidityView,
};
use crate::pool_state::PoolStateView;
use crate::pool_update_provider::{
    can_invert, inverse_events, inverse_of, liquidity_update_of, negation, StoredEvent,
};
use crate::shared_pools::{after_updates, pools_after, pools_after_all, PoolsView};
use crate::sorting::{stable_sort, stable_sort_permutes};
use crate::updates::PoolUpdate;
use crate::words::{i256_neg_exists, half_256, PoolId};

verus! {

/// Whether two views of a pool agree on the price and on the liquidity
/// everywhere. They may differ in which ticks without net liquidity are known.
pub open spec fn same_liquidity(a: LiquidityView, b: LiquidityView) -> bool {
    &&& a.tick_spacing == b.tick_spacing
    &&& a.tick == b.tick
    &&& a.sqrt_price == b.sqrt_price
    &&& a.liquidity == b.liquidity
    &&& forall|t: i32| #[trigger] net_at(a.ticks, t) == net_at(b.ticks, t)
}

/// Whether the same pools are known to both, in agreement on each of them.
pub open spec fn same_pools(
    a: Map<PoolId, PoolStateView>,
    b: Map<PoolId, PoolStateView>,
) -> bool {
    &&& a.dom() == b.dom()
    &&& forall|id: PoolId| #[trigger]
        a.contains_key(id) ==> same_liquidity(a[id].liquidity, b[id].liquidity) && a[id].block
            == b[id].block && a[id].fee_config == b[id].fee_config
}

/// The updates of stored events in turn.
pub open spec fn updates_of(events: Seq<StoredEvent>) -> Seq<PoolUpdate> {
    Seq::new(events.len(), |i: int| liquidity_update_of(events[i]))
}

/// Whether a stored event is one of a position: between two ticks in order,
/// with a delta that has a negation.
pub open spec fn is_position(event: StoredEvent) -> bool {
    &&& event.liquidity_event.tick_lower < event.liquidity_event.tick_upper
    &&& event.liquidity_event.liquidity_delta@ != i128::MIN
}

/// Whether stored events apply in turn: those of known pools are positions, and
/// the numbers that they change still fit.
pub open spec fn events_apply(
    pools: Map<PoolId, PoolStateView>,
    events: Seq<StoredEvent>,
) -> bool
    decreases events.len(),
{
    events.len() == 0 || {
        let before = pools_after_all(pools, updates_of(events.drop_last()));
        let last = events.last();
        &&& events_apply(pools, events.drop_last())
        &&& before.contains_key(last.pool_id) ==> is_position(last) && liquidity_fits(
            before[last.pool_id].liquidity,
            last.liquidity_event.tick_lower,
            last.liquidity_event.tick_upper,
            last.liquidity_event.liquidity_delta@,
        )
    }
}

/// Adding liquidity between two ticks keeps views in agreement.
proof fn with_liquidity_respects(
    a: LiquidityView,
    b: LiquidityView,
    lower: i32,
    upper: i32,
    delta: int,
)
    requires
        same_liquidity(a, b),
    ensures
        liquidity_fits(a, lower, upper, delta) == liquidity_fits(b, lower, upper, delta),
        liquidity_fits(a, lower, upper, delta) ==> same_liquidity(
            with_liquidity(a, lower, upper, delta),
            with_liquidity(b, lower, upper, delta),
        ),
{
    assert(net_at(a.ticks, lower) == net_at(b.ticks, lower));
    assert(net_at(a.ticks, upper) == net_at(b.ticks, upper));
    if liquidity_fits(a, lower, upper, delta) {
        let x = with_liquidity(a, lower, upper, delta);
        let y = with_liquidity(b, lower, upper, delta);
        assert forall|t: i32| #[trigger] net_at(x.ticks, t) == net_at(y.ticks, t) by {
            assert(net_at(a.ticks, t) == net_at(b.ticks, t));
        }
    }
}

/// An update keeps pools in agreement.
proof fn update_respects(
    a: Map<PoolId, PoolStateView>,
    b: Map<PoolId, PoolStateView>,
    update: PoolUpdate,
)
    requires
        same_pools(a, b),
    ensures
        same_pools(pools_after(a, update), pools_after(b, update)),
{
    let x = pools_after(a, update);
    let y = pools_after(b, update);
    assert forall|id: PoolId| #[trigger] a.contains_key(id) == b.contains_key(id) by {
        assert(a.dom().contains(id) == b.dom().contains(id));
    }
    assert(x.dom() =~= y.dom());
    assert forall|id: PoolId| #[trigger] x.contains_key(id) implies same_liquidity(
        x[id].liquidity,
        y[id].liquidity,
    ) && x[id].block == y[id].block && x[id].fee_config == y[id].fee_config by {
        match update {
            PoolUpdate::LiquidityEvent { pool_id, event, .. } => {
                assert(a.contains_key(id));
                if id == pool_id {
                    with_liquidity_respects(
                        a[id].liquidity,
                        b[id].liquidity,
                        event.tick_lower,
                        event.tick_upper,
                        event.liquidity_delta@,
                    );
                }
            },
            PoolUpdate::NewTicks { pool_id, .. } => {
                assert(a.contains_key(id));
                assert forall|t: i32| #[trigger]
                    net_at(x[id].liquidity.ticks, t) == net_at(y[id].liquidity.ticks, t) by {
                    assert(net_at(a[id].liquidity.ticks, t) == net_at(b[id].liquidity.ticks, t));
                }
            },
            PoolUpdate::NewPoolState { pool_id, .. } => {
                if id != pool_id {
                    assert(a.contains_key(id));
                }
            },
            _ => {
                assert(a.contains_key(id));
                assert forall|t: i32| #[trigger]
                    net_at(x[id].liquidity.ticks, t) == net_at(y[id].liquidity.ticks, t) by {
                    assert(net_at(a[id].liquidity.ticks, t) == net_at(b[id].liquidity.ticks, t));
                }
            },
        }
    }
}

/// Pools that agree stay in agreement as long as they follow the same updates:
/// what was loaded once and followed since is what would be loaded now, if the
/// updates are all that happened.
pub proof fn following_keeps_agreement(
    a: Map<PoolId, PoolStateView>,
    b: Map<PoolId, PoolStateView>,
    updates: Seq<PoolUpdate>,
)
    requires
        same_pools(a, b),
    ensures
        same_pools(pools_after_all(a, updates), pools_after_all(b, updates)),
    decreases updates.len(),
{
    if updates.len() != 0 {
        let front = updates.drop_last();
        following_keeps_agreement(a, b, front);
        update_respects(
            pools_after_all(a, front),
            pools_after_all(b, front),
            updates.last(),
        );
    }
}

/// Updates in turn, one first and then the rest.
proof fn after_first_and_rest(
    pools: Map<PoolId, PoolStateView>,
    first: PoolUpdate,
    rest: Seq<PoolUpdate>,
)
    ensures
        pools_after_all(pools, seq![first] + rest) == pools_after_all(
            pools_after(pools, first),
            rest,
        ),
    decreases rest.len(),
{
    let all = seq![first] + rest;
    if rest.len() == 0 {
        assert(all =~= seq![first]);
        assert(all.drop_last() =~= Seq::<PoolUpdate>::empty());
        reveal_with_fuel(pools_after_all, 2);
    } else {
        assert(all.drop_last() =~= seq![first] + rest.drop_last());
        after_first_and_rest(pools, first, rest.drop_last());
    }
}

/// An event that applies and the event that undoes it leave pools in agreement
/// with what they were.
proof fn inverse_undoes_one(pools: Map<PoolId, PoolStateView>, event: StoredEvent)
    requires
        event.liquidity_event.liquidity_delta@ != -half_256(),
        pools.contains_key(event.pool_id) ==> is_position(event) && liquidity_fits(
            pools[event.pool_id].liquidity,
            event.liquidity_event.tick_lower,
            event.liquidity_event.tick_upper,
            event.liquidity_event.liquidity_delta@,
        ),
    ensures
        same_pools(
            pools_after(pools_after(pools, liquidity_update_of(event)), inverse_of(event)),
            pools,
        ),
{
    let there = pools_after(pools, liquidity_update_of(event));
    let back = pools_after(there, inverse_of(event));
    if pools.contains_key(event.pool_id) {
        let e = event.liquidity_event;
        i256_neg_exists(e.liquidity_delta);
        assert(negation(e.liquidity_delta)@ == -e.liquidity_delta@);
        inverse_liquidity_restores(
            pools[event.pool_id].liquidity,
            e.tick_lower,
            e.tick_upper,
            e.liquidity_delta@,
        );
        assert(back.dom() =~= pools.dom());
    }
}

/// After a reorganization, undoing the stored events in the order in which it
/// does so takes the liquidity of every pool back to what it was before them.
pub proof fn reorg_restores_liquidity(
    pools: Map<PoolId, PoolStateView>,
    history: Seq<StoredEvent>,
    from_block: u64,
    to_block: u64,
)
    requires
        events_apply(pools, history),
        can_invert(history, from_block, to_block),
        forall|i: int|
            0 <= i < history.len() ==> from_block <= (#[trigger] history[i]).block <= to_block,
    ensures
        same_pools(
            pools_after_all(
                pools_after_all(pools, updates_of(history)),
                inverse_events(history, from_block, to_block),
            ),
            pools,
        ),
    decreases history.len(),
{
    if history.len() == 0 {
        assert(updates_of(history) =~= Seq::<PoolUpdate>::empty());
    } else {
        let front = history.drop_last();
        let last = history.last();
        assert(history[history.len() - 1] == last);
        assert forall|i: int| 0 <= i < front.len() implies from_block <= (
        #[trigger] front[i]).block <= to_block by {
            assert(front[i] == history[i]);
        }
        assert(can_invert(front, from_block, to_block)) by {
            assert forall|i: int|
                0 <= i < front.len() && from_block <= (#[trigger] front[i]).block
                    <= to_block implies front[i].liquidity_event.liquidity_delta@
                != -half_256() by {
                assert(front[i] == history[i]);
            }
        }
        reorg_restores_liquidity(pools, front, from_block, to_block);
        let before = pools_after_all(pools, updates_of(front));
        let undo = inverse_events(front, from_block, to_block);
        assert(updates_of(history).drop_last() =~= updates_of(front));
        let after = pools_after_all(pools, updates_of(history));
        assert(after == pools_after(before, liquidity_update_of(last)));
        inverse_undoes_one(before, last);
        let undone = pools_after(after, inverse_of(last));
        after_first_and_rest(after, inverse_of(last), undo);
        following_keeps_agreement(undone, before, undo);
        same_pools_is_transitive(
            pools_after_all(undone, undo),
            pools_after_all(before, undo),
            pools,
        );
    }
}

/// Agreement carries over.
proof fn same_pools_is_transitive(
    a: Map<PoolId, PoolStateView>,
    b: Map<PoolId, PoolStateView>,
    c: Map<PoolId, PoolStateView>,
)
    requires
        same_pools(a, b),
        same_pools(b, c),
    ensures
        same_pools(a, c),
{
    assert forall|id: PoolId| #[trigger] a.contains_key(id) implies same_liquidity(
        a[id].liquidity,
        c[id].liquidity,
    ) && a[id].block == c[id].block && a[id].fee_config == c[id].fee_config by {
        assert(b.dom().contains(id));
        assert(b.contains_key(id));
        assert forall|t: i32| #[trigger]
            net_at(a[id].liquidity.ticks, t) == net_at(c[id].liquidity.ticks, t) by {
            assert(net_at(a[id].liquidity.ticks, t) == net_at(b[id].liquidity.ticks, t));
            assert(net_at(b[id].liquidity.ticks, t) == net_at(c[id].liquidity.ticks, t));
        }
    }
}

/// Whether an update is a change of liquidity that applies: of an unknown pool,
/// or a position whose numbers fit.
pub open spec fn update_fits(pools: Map<PoolId, PoolStateView>, update: PoolUpdate) -> bool {
    match update {
        PoolUpdate::LiquidityEvent { pool_id, event, .. } => pools.contains_key(pool_id)
            ==> event.tick_lower < event.tick_upper && liquidity_fits(
            pools[pool_id].liquidity,
            event.tick_lower,
            event.tick_upper,
            event.liquidity_delta@,
        ),
        _ => false,
    }
}

/// Whether changes of liquidity apply in turn.
pub open spec fn updates_fit(pools: Map<PoolId, PoolStateView>, updates: Seq<PoolUpdate>) -> bool
    decreases updates.len(),
{
    updates.len() == 0 || (updates_fit(pools, updates.drop_last()) && update_fits(
        pools_after_all(pools, updates.drop_last()),
        updates.last(),
    ))
}

/// What an update adds to the net liquidity of a tick of a pool.
pub open spec fn net_change(update: PoolUpdate, id: PoolId, tick: i32) -> int {
    match update {
        PoolUpdate::LiquidityEvent { pool_id, event, .. } => if pool_id != id {
            0
        } else if tick == event.tick_lower {
            event.liquidity_delta@
        } else if tick == event.tick_upper {
            -event.liquidity_delta@
        } else {
            0
        },
        _ => 0,
    }
}

/// What an update adds to the liquidity of a pool that is at a tick.
pub open spec fn range_change(update: PoolUpdate, id: PoolId, tick: i32) -> int {
    match update {
        PoolUpdate::LiquidityEvent { pool_id, event, .. } => if pool_id == id && event.tick_lower
            <= tick < event.tick_upper {
            event.liquidity_delta@
        } else {
            0
        },
        _ => 0,
    }
}

/// The sum of a number over updates.
pub open spec fn total(updates: Seq<PoolUpdate>, change: spec_fn(PoolUpdate) -> int) -> int
    decreases updates.len(),
{
    if updates.len() == 0 {
        0
    } else {
        total(updates.drop_last(), change) + change(updates.last())
    }
}

/// What changes of liquidity that apply come to: the net liquidity of a tick
/// and the liquidity in range grow by the sums of what they add, and nothing
/// else of a pool changes.
pub proof fn fitting_updates_add_up(
    pools: Map<PoolId, PoolStateView>,
    updates: Seq<PoolUpdate>,
    id: PoolId,
    tick: i32,
)
    requires
        updates_fit(pools, updates),
    ensures
        pools_after_all(pools, updates).dom() == pools.dom(),
        pools.contains_key(id) ==> ({
            let before = pools[id];
            let after = pools_after_all(pools, updates)[id];
            &&& after.block == before.block
            &&& after.fee_config == before.fee_config
            &&& after.liquidity.tick_spacing == before.liquidity.tick_spacing
            &&& after.liquidity.tick == before.liquidity.tick
            &&& after.liquidity.sqrt_price == before.liquidity.sqrt_price
            &&& after.liquidity.liquidity == before.liquidity.liquidity + total(
                updates,
                |u: PoolUpdate| range_change(u, id, before.liquidity.tick),
            )
            &&& net_at(after.liquidity.ticks, tick) == net_at(before.liquidity.ticks, tick)
                + total(updates, |u: PoolUpdate| net_change(u, id, tick))
        }),
    decreases updates.len(),
{
    if updates.len() != 0 {
        let front = updates.drop_last();
        fitting_updates_add_up(pools, front, id, tick);
        let middle = pools_after_all(pools, front);
        let after = pools_after_all(pools, updates);
        assert(middle.contains_key(id) == pools.contains_key(id)) by {
            assert(middle.dom().contains(id) == pools.dom().contains(id));
        }
        match updates.last() {
            PoolUpdate::LiquidityEvent { pool_id, event, .. } => {
                if middle.contains_key(pool_id) {
                    assert(after.dom() =~= middle.dom()) by {
                        assert(middle.dom().contains(pool_id));
                    }
                    if pool_id == id {
                        let view = middle[id].liquidity;
                        assert(after[id].liquidity == with_liquidity(
                            view,
                            event.tick_lower,
                            event.tick_upper,
                            event.liquidity_delta@,
                        ));
                    }
                }
            },
            _ => {},
        }
    }
}

/// The sum over updates without one of them.
proof fn total_without(updates: Seq<PoolUpdate>, k: int, change: spec_fn(PoolUpdate) -> int)
    requires
        0 <= k < updates.len(),
    ensures
        total(updates, change) == total(updates.remove(k), change) + change(updates[k]),
    decreases updates.len(),
{
    let rest = updates.remove(k);
    if k == updates.len() - 1 {
        assert(rest =~= updates.drop_last());
    } else {
        total_without(updates.drop_last(), k, change);
        assert(rest.drop_last() =~= updates.drop_last().remove(k));
        assert(rest.last() == updates.last());
        assert(updates.drop_last()[k] == updates[k]);
    }
}

/// The sum over updates does not depend on their order.
pub proof fn total_permutes(
    a: Seq<PoolUpdate>,
    b: Seq<PoolUpdate>,
    change: spec_fn(PoolUpdate) -> int,
)
    requires
        a.to_multiset() == b.to_multiset(),
    ensures
        total(a, change) == total(b, change),
    decreases a.len(),
{
    broadcast use vstd::seq_lib::group_to_multiset_ensures;

    assert(a.len() == a.to_multiset().len() && b.len() == b.to_multiset().len());
    if a.len() != 0 {
        let x = a.last();
        assert(a[a.len() - 1] == x);
        assert(a.to_multiset().contains(x));
        assert(b.to_multiset().contains(x));
        assert(b.contains(x));
        let k = choose|k: int| 0 <= k < b.len() && b[k] == x;
        assert(a =~= a.drop_last().push(x));
        assert(a.drop_last() =~= a.remove(a.len() - 1));
        assert(a.drop_last().to_multiset() =~= b.remove(k).to_multiset());
        total_permutes(a.drop_last(), b.remove(k), change);
        total_without(b, k, change);
    }
}

/// Changes of liquidity come to the same in whatever order they are applied,
/// where they apply in both orders.
pub proof fn order_of_positions_does_not_matter(
    pools: Map<PoolId, PoolStateView>,
    a: Seq<PoolUpdate>,
    b: Seq<PoolUpdate>,
)
    requires
        a.to_multiset() == b.to_multiset(),
        updates_fit(pools, a),
        updates_fit(pools, b),
    ensures
        same_pools(pools_after_all(pools, a), pools_after_all(pools, b)),
{
    let x = pools_after_all(pools, a);
    let y = pools_after_all(pools, b);
    let any: PoolId = arbitrary();
    fitting_updates_add_up(pools, a, any, 0);
    fitting_updates_add_up(pools, b, any, 0);
    assert forall|id: PoolId| #[trigger] x.contains_key(id) implies same_liquidity(
        x[id].liquidity,
        y[id].liquidity,
    ) && x[id].block == y[id].block && x[id].fee_config == y[id].fee_config by {
        assert(pools.dom().contains(id));
        let at = pools[id].liquidity.tick;
        fitting_updates_add_up(pools, a, id, 0);
        fitting_updates_add_up(pools, b, id, 0);
        total_permutes(a, b, |u: PoolUpdate| range_change(u, id, at));
        assert forall|t: i32| #[trigger]
            net_at(x[id].liquidity.ticks, t) == net_at(y[id].liquidity.ticks, t) by {
            fitting_updates_add_up(pools, a, id, t);
            fitting_updates_add_up(pools, b, id, t);
            total_permutes(a, b, |u: PoolUpdate| net_change(u, id, t));
        }
    }
}

/// The sum over updates of which one comes first.
proof fn total_of_first_and_rest(
    first: PoolUpdate,
    rest: Seq<PoolUpdate>,
    change: spec_fn(PoolUpdate) -> int,
)
    ensures
        total(seq![first] + rest, change) == change(first) + total(rest, change),
{
    let all = seq![first] + rest;
    total_without(all, 0, change);
    assert(all.remove(0) =~= rest);
}

/// What the undoing of events adds is the opposite of what the events add.
proof fn inverse_totals(
    history: Seq<StoredEvent>,
    from_block: u64,
    to_block: u64,
    id: PoolId,
    tick: i32,
)
    requires
        can_invert(history, from_block, to_block),
        forall|i: int|
            0 <= i < history.len() ==> from_block <= (#[trigger] history[i]).block <= to_block,
    ensures
        total(
            inverse_events(history, from_block, to_block),
            |u: PoolUpdate| range_change(u, id, tick),
        ) == -total(updates_of(history), |u: PoolUpdate| range_change(u, id, tick)),
        total(
            inverse_events(history, from_block, to_block),
            |u: PoolUpdate| net_change(u, id, tick),
        ) == -total(updates_of(history), |u: PoolUpdate| net_change(u, id, tick)),
    decreases history.len(),
{
    let in_range = |u: PoolUpdate| range_change(u, id, tick);
    let net = |u: PoolUpdate| net_change(u, id, tick);
    if history.len() != 0 {
        let front = history.drop_last();
        let last = history.last();
        assert(history[history.len() - 1] == last);
        assert forall|i: int| 0 <= i < front.len() implies from_block <= (
        #[trigger] front[i]).block <= to_block by {
            assert(front[i] == history[i]);
        }
        assert(can_invert(front, from_block, to_block)) by {
            assert forall|i: int|
                0 <= i < front.len() && from_block <= (#[trigger] front[i]).block
                    <= to_block implies front[i].liquidity_event.liquidity_delta@
                != -half_256() by {
                assert(front[i] == history[i]);
            }
        }
        inverse_totals(front, from_block, to_block, id, tick);
        i256_neg_exists(last.liquidity_event.liquidity_delta);
        assert(negation(last.liquidity_event.liquidity_delta)@
            == -last.liquidity_event.liquidity_delta@);
        let rest = inverse_events(front, from_block, to_block);
        total_of_first_and_rest(inverse_of(last), rest, in_range);
        total_of_first_and_rest(inverse_of(last), rest, net);
        assert(updates_of(history).drop_last() =~= updates_of(front));
        assert(updates_of(history).last() == liquidity_update_of(last));
    }
}

/// Events that apply as positions apply as updates.
proof fn applied_events_fit(pools: Map<PoolId, PoolStateView>, events: Seq<StoredEvent>)
    requires
        events_apply(pools, events),
    ensures
        updates_fit(pools, updates_of(events)),
    decreases events.len(),
{
    if events.len() != 0 {
        applied_events_fit(pools, events.drop_last());
        assert(updates_of(events).drop_last() =~= updates_of(events.drop_last()));
        assert(updates_of(events).last() == liquidity_update_of(events.last()));
    }
}

/// After a reorganization, applying the events that undo the stored ones as one
/// batch takes the liquidity of every pool back to what it was before them. A
/// batch is applied in the order of transactions and logs, whatever the blocks;
/// the events have to apply in that order.
pub proof fn reorg_batch_restores_liquidity(
    before: PoolsView,
    history: Seq<StoredEvent>,
    from_block: u64,
    to_block: u64,
)
    requires
        events_apply(before.pools, history),
        can_invert(history, from_block, to_block),
        forall|i: int|
            0 <= i < history.len() ==> from_block <= (#[trigger] history[i]).block <= to_block,
        updates_fit(
            pools_after_all(before.pools, updates_of(history)),
            stable_sort(inverse_events(history, from_block, to_block)),
        ),
    ensures
        ({
            let there = PoolsView {
                pools: pools_after_all(before.pools, updates_of(history)),
                ..before
            };
            let back = after_updates(there, inverse_events(history, from_block, to_block));
            same_pools(back.pools, before.pools)
        }),
{
    let events = updates_of(history);
    let undo = inverse_events(history, from_block, to_block);
    let sorted = stable_sort(undo);
    let pools = before.pools;
    let there = pools_after_all(pools, events);
    let back = pools_after_all(there, sorted);
    stable_sort_permutes(undo);
    applied_events_fit(pools, history);
    let any: PoolId = arbitrary();
    fitting_updates_add_up(pools, events, any, 0);
    fitting_updates_add_up(there, sorted, any, 0);
    assert forall|id: PoolId| #[trigger] back.contains_key(id) implies same_liquidity(
        back[id].liquidity,
        pools[id].liquidity,
    ) && back[id].block == pools[id].block && back[id].fee_config == pools[id].fee_config by {
        assert(back.dom().contains(id));
        assert(there.contains_key(id) && pools.contains_key(id));
        let at = pools[id].liquidity.tick;
        fitting_updates_add_up(pools, events, id, 0);
        fitting_updates_add_up(there, sorted, id, 0);
        inverse_totals(history, from_block, to_block, id, at);
        total_permutes(undo, sorted, |u: PoolUpdate| range_change(u, id, at));
        assert forall|t: i32| #[trigger]
            net_at(back[id].liquidity.ticks, t) == net_at(pools[id].liquidity.ticks, t) by {
            fitting_updates_add_up(pools, events, id, t);
            fitting_updates_add_up(there, sorted, id, t);
            inverse_totals(history, from_block, to_block, id, t);
            total_permutes(undo, sorted, |u: PoolUpdate| net_change(u, id, t));
        }
    }
}

} // verus!
