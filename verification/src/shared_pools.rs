//! All pools and the block that they are up to date for.
use vstd::prelude::*;

use crate::liquidity_base::{
    has_place, liquidity_keeps_ticks_marked, new_ticks_keep_ticks_marked, ticks_are_marked,
};
use crate::pool_state::{
    with_fees, with_liquidity_event, with_slot0, with_ticks, BaselinePoolState, PoolStateView,
};
use crate::sorting::{
    is_of_log, sort_updates, sorted_updates_follow_the_chain, stable_sort, stable_sort_of_copies,
};
use crate::sqrt_price::SqrtPriceX96;
use crate::tick_bitmap::{bitmap_union_bits, tick_bit, trunc_div};
use crate::traits::{next_update_step, PoolUpdateDelivery, PoolUpdateDeliveryExt};
use crate::updates::{
    is_deliverable, queue_is_first_in_first_out, same_update, same_updates,
    ModifyLiquidityEventData, PoolUpdate, PoolUpdateQueue, Slot0Update,
};
use crate::words::{PoolId, B256, U256};

verus! {

/// The key of a pool in the table: the limbs of its identifier.
pub type TableKey = (u64, u64, u64, u64);

/// The table of pools.
pub type PoolTable = dashmap::DashMap<TableKey, BaselinePoolState>;

/// A concurrent hash map of `dashmap`.
#[verifier::external_type_specification]
#[verifier::external_body]
#[verifier::reject_recursive_types(K)]
#[verifier::reject_recursive_types(V)]
#[verifier::reject_recursive_types(S)]
pub struct ExDashMap<K, V, S>(dashmap::DashMap<K, V, S>);

/// What a table of pools holds.
pub uninterp spec fn table_entries(table: PoolTable) -> Map<TableKey, BaselinePoolState>;

/// `dashmap::DashMap::new`: a table without entries.
#[verifier::external_body]
fn table_new() -> (r: PoolTable)
    ensures
        table_entries(r).dom().is_empty(),
{
    dashmap::DashMap::new()
}

/// `dashmap::DashMap::insert`: the value stands under the key, in place of any
/// that was there.
#[verifier::external_body]
fn table_insert(table: &mut PoolTable, key: TableKey, state: BaselinePoolState)
    ensures
        table_entries(*final(table)) == table_entries(*old(table)).insert(key, state),
{
    table.insert(key, state);
}

/// `dashmap::DashMap::remove`: the value under the key is taken out and handed
/// back, if there was one.
#[verifier::external_body]
fn table_remove(table: &mut PoolTable, key: &TableKey) -> (r: Option<BaselinePoolState>)
    ensures
        table_entries(*final(table)) == table_entries(*old(table)).remove(*key),
        r is Some <==> table_entries(*old(table)).contains_key(*key),
        r matches Some(state) ==> state == table_entries(*old(table))[*key],
{
    table.remove(key).map(|entry| entry.1)
}

/// `dashmap::DashMap::view`: a copy of the value under the key, if there is
/// one.
#[verifier::external_body]
fn table_copy(table: &PoolTable, key: &TableKey) -> (r: Option<BaselinePoolState>)
    ensures
        r is Some <==> table_entries(*table).contains_key(*key),
        r matches Some(state) ==> state@ == table_entries(*table)[*key]@,
{
    table.view(key, |_, state| state.clone())
}

/// `dashmap::DashMap::iter`: all keys, each once, in an order that is left
/// open.
#[verifier::external_body]
fn table_keys(table: &PoolTable) -> (r: Vec<TableKey>)
    ensures
        r@.no_duplicates(),
        r@.to_set() == table_entries(*table).dom(),
{
    table.iter().map(|entry| *entry.key()).collect()
}

/// The key of a pool in the table.
pub open spec fn key_of(id: PoolId) -> TableKey {
    (id.word.l0, id.word.l1, id.word.l2, id.word.l3)
}

/// The pool of a key in the table.
pub open spec fn id_of(key: TableKey) -> PoolId {
    B256 { word: U256 { l0: key.0, l1: key.1, l2: key.2, l3: key.3 } }
}

/// The states of the pools of a table.
pub open spec fn pools_of(entries: Map<TableKey, BaselinePoolState>) -> Map<PoolId, PoolStateView> {
    Map::new(
        |id: PoolId| entries.contains_key(key_of(id)),
        |id: PoolId| entries[key_of(id)]@,
    )
}

/// All pools and the block that they are up to date for.
#[verifier::ext_equal]
pub struct PoolsView {
    pub pools: Map<PoolId, PoolStateView>,
    pub block_number: u64,
}

/// The pools after a change to the state of one of them, if it is known.
pub open spec fn with_changed(
    pools: Map<PoolId, PoolStateView>,
    id: PoolId,
    state: PoolStateView,
) -> Map<PoolId, PoolStateView> {
    if pools.contains_key(id) {
        pools.insert(id, state)
    } else {
        pools
    }
}

/// The pools after one update. An update of an unknown pool changes nothing,
/// nor does one that is not about the state of a pool.
pub open spec fn pools_after(
    pools: Map<PoolId, PoolStateView>,
    update: PoolUpdate,
) -> Map<PoolId, PoolStateView> {
    match update {
        PoolUpdate::SwapEvent { pool_id, event, .. } => with_changed(
            pools,
            pool_id,
            with_slot0(pools[pool_id], event.tick, event.sqrt_price_x96@, event.liquidity),
        ),
        PoolUpdate::LiquidityEvent { pool_id, event, .. } => with_changed(
            pools,
            pool_id,
            with_liquidity_event(
                pools[pool_id],
                event.tick_lower,
                event.tick_upper,
                event.liquidity_delta@,
            ),
        ),
        PoolUpdate::FeeUpdate { pool_id, bundle_fee, swap_fee, protocol_fee, .. } => with_changed(
            pools,
            pool_id,
            with_fees(pools[pool_id], bundle_fee, swap_fee, protocol_fee),
        ),
        PoolUpdate::UpdatedSlot0 { pool_id, data } => with_changed(
            pools,
            pool_id,
            with_slot0(pools[pool_id], data.tick, data.sqrt_price_x96@, data.liquidity),
        ),
        PoolUpdate::NewTicks { pool_id, ticks, tick_bitmap } => with_changed(
            pools,
            pool_id,
            with_ticks(pools[pool_id], ticks@, tick_bitmap@),
        ),
        PoolUpdate::NewPoolState { pool_id, state } => pools.insert(pool_id, state@),
        PoolUpdate::Slot0Update(update) => with_changed(
            pools,
            update.angstrom_pool_id,
            with_slot0(
                pools[update.angstrom_pool_id],
                update.tick,
                update.sqrt_price_x96@,
                update.liquidity,
            ),
        ),
        _ => pools,
    }
}

/// The pools after updates in turn.
pub open spec fn pools_after_all(
    pools: Map<PoolId, PoolStateView>,
    updates: Seq<PoolUpdate>,
) -> Map<PoolId, PoolStateView>
    decreases updates.len(),
{
    if updates.len() == 0 {
        pools
    } else {
        pools_after(pools_after_all(pools, updates.drop_last()), updates.last())
    }
}

/// The block that an update moves to, if it does.
pub open spec fn block_of(update: PoolUpdate) -> Option<u64> {
    match update {
        PoolUpdate::NewBlock(block) => Some(block),
        PoolUpdate::Reorg { to_block, .. } => Some(to_block),
        _ => None,
    }
}

/// The block that updates move to: that of the last one that moves to any.
pub open spec fn last_block(updates: Seq<PoolUpdate>) -> Option<u64>
    decreases updates.len(),
{
    if updates.len() == 0 {
        None
    } else if block_of(updates.last()) is Some {
        block_of(updates.last())
    } else {
        last_block(updates.drop_last())
    }
}

/// All pools after updates, which are applied in the order of the block.
pub open spec fn after_updates(view: PoolsView, updates: Seq<PoolUpdate>) -> PoolsView {
    let sorted = stable_sort(updates);
    PoolsView {
        pools: pools_after_all(view.pools, sorted),
        block_number: match last_block(sorted) {
            Some(block) => block,
            None => view.block_number,
        },
    }
}

/// Updates leave alone the pools that none of them names, and never take a
/// pool away.
pub proof fn updates_touch_named_pools(
    pools: Map<PoolId, PoolStateView>,
    updates: Seq<PoolUpdate>,
    id: PoolId,
)
    ensures
        pools.contains_key(id) ==> pools_after_all(pools, updates).contains_key(id),
        (forall|i: int| 0 <= i < updates.len() ==> !names_pool(#[trigger] updates[i], id)) ==> (
        pools_after_all(pools, updates).contains_key(id) <==> pools.contains_key(id)) && (
        pools.contains_key(id) ==> pools_after_all(pools, updates)[id] == pools[id]),
    decreases updates.len(),
{
    if updates.len() != 0 {
        let front = updates.drop_last();
        updates_touch_named_pools(pools, front, id);
        if forall|i: int| 0 <= i < updates.len() ==> !names_pool(#[trigger] updates[i], id) {
            assert forall|i: int| 0 <= i < front.len() implies !names_pool(
                #[trigger] front[i],
                id,
            ) by {
                assert(front[i] == updates[i]);
            }
            assert(!names_pool(updates[updates.len() - 1], id));
        }
    }
}

proof fn pools_after_all_of_copies(
    pools: Map<PoolId, PoolStateView>,
    a: Seq<PoolUpdate>,
    b: Seq<PoolUpdate>,
)
    requires
        same_updates(a, b),
    ensures
        pools_after_all(pools, a) == pools_after_all(pools, b),
        last_block(a) == last_block(b),
    decreases a.len(),
{
    if a.len() != 0 {
        pools_after_all_of_copies(pools, a.drop_last(), b.drop_last());
        assert(a[a.len() - 1] == a.last() && b[b.len() - 1] == b.last());
        assert(same_update(a.last(), b.last()));
    }
}

/// Copies of updates do to pools what the updates do.
pub proof fn after_updates_of_copies(view: PoolsView, a: Seq<PoolUpdate>, b: Seq<PoolUpdate>)
    requires
        same_updates(a, b),
    ensures
        after_updates(view, a) == after_updates(view, b),
        last_block(stable_sort(a)) == last_block(stable_sort(b)),
{
    stable_sort_of_copies(a, b);
    pools_after_all_of_copies(view.pools, stable_sort(a), stable_sort(b));
}

/// Whether an update is about the state of a pool.
pub open spec fn names_pool(update: PoolUpdate, id: PoolId) -> bool {
    match update {
        PoolUpdate::SwapEvent { pool_id, .. } => pool_id == id,
        PoolUpdate::LiquidityEvent { pool_id, .. } => pool_id == id,
        PoolUpdate::FeeUpdate { pool_id, .. } => pool_id == id,
        PoolUpdate::UpdatedSlot0 { pool_id, .. } => pool_id == id,
        PoolUpdate::NewTicks { pool_id, .. } => pool_id == id,
        PoolUpdate::NewPoolState { pool_id, .. } => pool_id == id,
        PoolUpdate::Slot0Update(update) => update.angstrom_pool_id == id,
        _ => false,
    }
}

/// Whether the ticks that an update brings are marked in the bitmap that it
/// brings, or can be marked.
pub open spec fn brings_marked_ticks(
    pools: Map<PoolId, PoolStateView>,
    update: PoolUpdate,
) -> bool {
    match update {
        PoolUpdate::LiquidityEvent { event, .. } => has_place(event.tick_lower) && has_place(
            event.tick_upper,
        ),
        PoolUpdate::NewTicks { pool_id, ticks, tick_bitmap } => pools.contains_key(pool_id)
            ==> forall|t: i32| #[trigger]
            ticks@.contains_key(t) ==> has_place(t) && tick_bit(
                tick_bitmap@,
                trunc_div(t as int, pools[pool_id].liquidity.tick_spacing as int),
            ),
        PoolUpdate::NewPoolState { state, .. } => ticks_are_marked(state@.liquidity),
        _ => true,
    }
}

/// No update makes a swap overlook a tick: where every tick that is known of
/// every pool is marked in the bitmap of the pool, it still is after an update.
pub proof fn updates_keep_ticks_marked(pools: Map<PoolId, PoolStateView>, update: PoolUpdate)
    requires
        forall|id: PoolId| #[trigger]
            pools.contains_key(id) ==> ticks_are_marked(pools[id].liquidity),
        brings_marked_ticks(pools, update),
    ensures
        forall|id: PoolId| #[trigger]
            pools_after(pools, update).contains_key(id) ==> ticks_are_marked(
                pools_after(pools, update)[id].liquidity,
            ),
{
    assert forall|id: PoolId| #[trigger] pools_after(pools, update).contains_key(
        id,
    ) implies ticks_are_marked(pools_after(pools, update)[id].liquidity) by {
        if pools.contains_key(id) {
            assert(ticks_are_marked(pools[id].liquidity));
            match update {
                PoolUpdate::LiquidityEvent { pool_id, event, .. } => {
                    liquidity_keeps_ticks_marked(
                        pools[id].liquidity,
                        event.tick_lower,
                        event.tick_upper,
                        event.liquidity_delta@,
                    );
                },
                PoolUpdate::NewTicks { pool_id, ticks, tick_bitmap } => {
                    if pool_id == id {
                        new_ticks_keep_ticks_marked(pools[id].liquidity, ticks@, tick_bitmap@);
                    }
                },
                _ => {},
            }
        }
    }
}

/// An update of the price of a known pool is taken over as it is: after a swap, and
/// after a price that was queried or came from the feed, the pool has the tick, the
/// price and the liquidity of the update, whatever it had before. Nothing else of the
/// pool changes.
pub proof fn price_is_taken_over(pools: Map<PoolId, PoolStateView>, update: PoolUpdate)
    ensures
        ({
            let after = pools_after(pools, update);
            let told: Option<(PoolId, i32, nat, u128)> = match update {
                PoolUpdate::SwapEvent { pool_id, event, .. } => Some(
                    (pool_id, event.tick, event.sqrt_price_x96@, event.liquidity),
                ),
                PoolUpdate::UpdatedSlot0 { pool_id, data } => Some(
                    (pool_id, data.tick, data.sqrt_price_x96@, data.liquidity),
                ),
                PoolUpdate::Slot0Update(data) => Some(
                    (data.angstrom_pool_id, data.tick, data.sqrt_price_x96@, data.liquidity),
                ),
                _ => None,
            };
            told matches Some((id, tick, price, liquidity)) ==> pools.contains_key(id) ==> {
                &&& after.contains_key(id)
                &&& after[id].liquidity.tick == tick
                &&& after[id].liquidity.sqrt_price == price
                &&& after[id].liquidity.liquidity == liquidity
                &&& after[id].liquidity.tick_spacing == pools[id].liquidity.tick_spacing
                &&& after[id].liquidity.ticks == pools[id].liquidity.ticks
                &&& after[id].liquidity.bitmap == pools[id].liquidity.bitmap
                &&& after[id].fee_config == pools[id].fee_config
                &&& after[id].block == pools[id].block
            }
        }),
{
}

/// After a fee update of a known pool its bundle fee, its swap fee and its protocol
/// fee are those of the update, for all values and whatever the pool had before. The
/// mode of the pool, its liquidity and its block stay.
pub proof fn fees_are_taken_over(
    pools: Map<PoolId, PoolStateView>,
    id: PoolId,
    block: u64,
    bundle_fee: u32,
    swap_fee: u32,
    protocol_fee: u32,
)
    requires
        pools.contains_key(id),
    ensures
        ({
            let after = pools_after(
                pools,
                PoolUpdate::FeeUpdate { pool_id: id, block, bundle_fee, swap_fee, protocol_fee },
            );
            &&& after.contains_key(id)
            &&& after[id].fee_config.bundle_fee == bundle_fee
            &&& after[id].fee_config.swap_fee == swap_fee
            &&& after[id].fee_config.protocol_fee == protocol_fee
            &&& after[id].fee_config.is_bundle_mode == pools[id].fee_config.is_bundle_mode
            &&& after[id].liquidity == pools[id].liquidity
            &&& after[id].block == pools[id].block
        }),
        ({
            let after = with_fees(pools[id], bundle_fee, swap_fee, protocol_fee);
            &&& after.fee_config.bundle_fee == bundle_fee
            &&& after.fee_config.swap_fee == swap_fee
            &&& after.fee_config.protocol_fee == protocol_fee
        }),
{
}

/// A change of the liquidity of a known pool is taken over: the net of its lower tick
/// grows by the change and that of its upper tick shrinks by it, both ticks are
/// initialized, and the liquidity grows by it exactly where the tick of the pool lies
/// in the range, its lower end taken in and its upper end not. Every other tick, the
/// price, the fees and the block stay. Where one of these numbers does not fit its
/// type, or the pool has no spacing, nothing changes.
pub proof fn liquidity_change_is_taken_over(
    pools: Map<PoolId, PoolStateView>,
    id: PoolId,
    block: u64,
    tx_index: u64,
    log_index: u64,
    event: ModifyLiquidityEventData,
)
    requires
        pools.contains_key(id),
        event.tick_lower != event.tick_upper,
    ensures
        ({
            let delta = event.liquidity_delta@;
            let (lower, upper) = (event.tick_lower, event.tick_upper);
            let before = pools[id].liquidity;
            let after = pools_after(
                pools,
                PoolUpdate::LiquidityEvent { pool_id: id, block, tx_index, log_index, event },
            );
            let lower_net = (if before.ticks.contains_key(lower) {
                before.ticks[lower].liquidity_net as int
            } else {
                0
            }) + delta;
            let upper_net = (if before.ticks.contains_key(upper) {
                before.ticks[upper].liquidity_net as int
            } else {
                0
            }) - delta;
            let liquidity = before.liquidity + if lower <= before.tick < upper {
                delta
            } else {
                0
            };
            let fits = before.tick_spacing > 0 && i128::MIN <= delta <= i128::MAX && i128::MIN
                <= lower_net <= i128::MAX && i128::MIN <= upper_net <= i128::MAX && 0 <= liquidity
                <= u128::MAX;
            &&& after.contains_key(id)
            &&& !fits ==> after[id] == pools[id]
            &&& fits ==> {
                let now = after[id].liquidity;
                &&& now.liquidity == liquidity
                &&& now.ticks.contains_key(lower) && now.ticks[lower].liquidity_net == lower_net
                    && now.ticks[lower].initialized
                &&& now.ticks.contains_key(upper) && now.ticks[upper].liquidity_net == upper_net
                    && now.ticks[upper].initialized
                &&& forall|t: i32|
                    t != lower && t != upper ==> #[trigger] now.ticks.contains_key(t)
                        == before.ticks.contains_key(t) && (before.ticks.contains_key(t)
                        ==> now.ticks[t] == before.ticks[t])
                &&& now.tick == before.tick
                &&& now.sqrt_price == before.sqrt_price
                &&& now.tick_spacing == before.tick_spacing
                &&& after[id].fee_config == pools[id].fee_config
                &&& after[id].block == pools[id].block
            }
        }),
{
}

/// A change of the liquidity of a range without extent changes no liquidity and no net: it
/// marks its tick as initialized, and nothing else.
pub proof fn empty_range_changes_no_net(
    pools: Map<PoolId, PoolStateView>,
    id: PoolId,
    block: u64,
    tx_index: u64,
    log_index: u64,
    event: ModifyLiquidityEventData,
    t: i32,
)
    requires
        pools.contains_key(id),
        event.tick_lower == event.tick_upper,
    ensures
        ({
            let before = pools[id].liquidity;
            let after = pools_after(
                pools,
                PoolUpdate::LiquidityEvent { pool_id: id, block, tx_index, log_index, event },
            );
            let now = after[id].liquidity;
            &&& after.contains_key(id)
            &&& now.liquidity == before.liquidity
            &&& now.tick == before.tick && now.sqrt_price == before.sqrt_price && now.tick_spacing
                == before.tick_spacing
            &&& t != event.tick_lower ==> now.ticks.contains_key(t) == before.ticks.contains_key(t)
                && (before.ticks.contains_key(t) ==> now.ticks[t] == before.ticks[t])
            &&& before.ticks.contains_key(event.tick_lower) ==> now.ticks.contains_key(
                event.tick_lower,
            ) && now.ticks[event.tick_lower].liquidity_net
                == before.ticks[event.tick_lower].liquidity_net
            &&& after[id].fee_config == pools[id].fee_config && after[id].block == pools[id].block
        }),
{
}

/// Ticks that were loaded are taken over: each stands in place of one of the same
/// position, its bits are added to the bitmap, and every other tick and bit, the
/// price, the fees and the block stay.
pub proof fn ticks_are_taken_over(
    pools: Map<PoolId, PoolStateView>,
    update: PoolUpdate,
    t: i32,
    compressed: int,
)
    ensures
        update matches PoolUpdate::NewTicks { pool_id, ticks, tick_bitmap } ==> pools.contains_key(
            pool_id,
        ) ==> {
            let before = pools[pool_id].liquidity;
            let after = pools_after(pools, update);
            let now = after[pool_id].liquidity;
            &&& after.contains_key(pool_id)
            &&& ticks@.contains_key(t) ==> now.ticks.contains_key(t) && now.ticks[t] == ticks@[t]
            &&& !ticks@.contains_key(t) ==> now.ticks.contains_key(t) == before.ticks.contains_key(
                t,
            ) && (before.ticks.contains_key(t) ==> now.ticks[t] == before.ticks[t])
            &&& tick_bit(now.bitmap, compressed) == (tick_bit(before.bitmap, compressed)
                || tick_bit(tick_bitmap@, compressed))
            &&& now.tick == before.tick
            &&& now.sqrt_price == before.sqrt_price
            &&& now.liquidity == before.liquidity
            &&& now.tick_spacing == before.tick_spacing
            &&& after[pool_id].fee_config == pools[pool_id].fee_config
            &&& after[pool_id].block == pools[pool_id].block
        },
{
    if let PoolUpdate::NewTicks { pool_id, ticks, tick_bitmap } = update {
        if pools.contains_key(pool_id) {
            bitmap_union_bits(pools[pool_id].liquidity.bitmap, tick_bitmap@, compressed);
        }
    }
}

/// An update changes at most the pool that it is for. One for a pool that is not known
/// changes nothing, unless it brings the whole state of that pool, which stands as it
/// was brought, in place of any that was there. A new block, a pool that was created,
/// configured or removed, and a reorganization change no state.
pub proof fn update_changes_its_pool_alone(
    pools: Map<PoolId, PoolStateView>,
    update: PoolUpdate,
    other: PoolId,
)
    ensures
        ({
            let after = pools_after(pools, update);
            let target: Option<PoolId> = match update {
                PoolUpdate::SwapEvent { pool_id, .. } => Some(pool_id),
                PoolUpdate::LiquidityEvent { pool_id, .. } => Some(pool_id),
                PoolUpdate::FeeUpdate { pool_id, .. } => Some(pool_id),
                PoolUpdate::UpdatedSlot0 { pool_id, .. } => Some(pool_id),
                PoolUpdate::NewTicks { pool_id, .. } => Some(pool_id),
                PoolUpdate::NewPoolState { pool_id, .. } => Some(pool_id),
                PoolUpdate::Slot0Update(data) => Some(data.angstrom_pool_id),
                PoolUpdate::NewBlock(_) => None,
                PoolUpdate::NewPool { .. } => None,
                PoolUpdate::PoolConfigured { .. } => None,
                PoolUpdate::PoolRemoved { .. } => None,
                PoolUpdate::Reorg { .. } => None,
            };
            &&& target is None ==> after == pools
            &&& Some(other) != target ==> after.contains_key(other) == pools.contains_key(other)
                && (pools.contains_key(other) ==> after[other] == pools[other])
            &&& target matches Some(id) ==> (!pools.contains_key(id) && !(update is NewPoolState)
                ==> after == pools)
            &&& update matches PoolUpdate::NewPoolState { pool_id, state } ==> after.contains_key(
                pool_id,
            ) && after[pool_id] == state@
        }),
{
}

/// Updates are applied one after the other.
pub proof fn updates_are_applied_in_turn(
    pools: Map<PoolId, PoolStateView>,
    first: Seq<PoolUpdate>,
    more: Seq<PoolUpdate>,
)
    ensures
        pools_after_all(pools, first + more) == pools_after_all(
            pools_after_all(pools, first),
            more,
        ),
        first.len() == 1 ==> pools_after_all(pools, first) == pools_after(pools, first[0]),
    decreases more.len(),
{
    if more.len() == 0 {
        assert(first + more =~= first);
    } else {
        assert((first + more).drop_last() =~= first + more.drop_last());
        updates_are_applied_in_turn(pools, first, more.drop_last());
    }
    if first.len() == 1 {
        assert(first.drop_last().len() == 0);
        assert(pools_after_all(pools, first.drop_last()) == pools);
    }
}

/// The last block that updates move to is that of the last of them that is a new block
/// or a reorganization.
proof fn last_block_is_of_last_mover(updates: Seq<PoolUpdate>)
    ensures
        last_block(updates) == last_block(
            updates.filter(|x: PoolUpdate| !is_of_log(x)),
        ),
    decreases updates.len(),
{
    reveal(Seq::filter);
    let p = |x: PoolUpdate| !is_of_log(x);
    if updates.len() != 0 {
        let front = updates.drop_last();
        let last = updates.last();
        last_block_is_of_last_mover(front);
        if p(last) {
            let kept = front.filter(p);
            assert(kept.push(last).drop_last() =~= kept);
            assert(kept.push(last).last() == last);
        }
    }
}

/// Updates behind the last one that moves to a block do not move.
proof fn last_mover_tells_block(updates: Seq<PoolUpdate>, k: int)
    requires
        0 <= k < updates.len(),
        updates[k] is NewBlock || updates[k] is Reorg,
        forall|j: int|
            k < j < updates.len() ==> !((#[trigger] updates[j]) is NewBlock) && !(updates[j] is Reorg),
    ensures
        last_block(updates) == match updates[k] {
            PoolUpdate::NewBlock(block) => Some(block),
            PoolUpdate::Reorg { to_block, .. } => Some(to_block),
            _ => None,
        },
    decreases updates.len(),
{
    if k < updates.len() - 1 {
        let front = updates.drop_last();
        assert(updates[updates.len() - 1] == updates.last());
        assert(front[k] == updates[k]);
        assert forall|j: int| k < j < front.len() implies !((#[trigger] front[j]) is NewBlock)
            && !(front[j] is Reorg) by {
            assert(front[j] == updates[j]);
        }
        last_mover_tells_block(front, k);
    }
}

/// Updates of which one is a new block or a reorganization move to a block, in whatever
/// order they are.
pub proof fn a_mover_moves(updates: Seq<PoolUpdate>)
    ensures
        last_block(stable_sort(updates)) is Some <==> exists|i: int|
            0 <= i < updates.len() && (#[trigger] updates[i] is NewBlock || updates[i] is Reorg),
{
    sorted_updates_follow_the_chain(updates);
    last_block_is_of_last_mover(updates);
    last_block_is_of_last_mover(stable_sort(updates));
    assert(last_block(stable_sort(updates)) == last_block(updates));
    some_mover_some_block(updates);
    if !(exists|i: int|
        0 <= i < updates.len() && (#[trigger] updates[i] is NewBlock || updates[i] is Reorg)) {
        no_mover_no_block(updates);
    }
}

/// Where one of some updates moves to a block, they move to one.
proof fn some_mover_some_block(updates: Seq<PoolUpdate>)
    ensures
        forall|i: int|
            0 <= i < updates.len() && (#[trigger] updates[i] is NewBlock || updates[i] is Reorg)
                ==> last_block(updates) is Some,
    decreases updates.len(),
{
    if updates.len() != 0 {
        let front = updates.drop_last();
        some_mover_some_block(front);
        assert forall|i: int|
            0 <= i < updates.len() && (#[trigger] updates[i] is NewBlock
                || updates[i] is Reorg) implies last_block(updates) is Some by {
            if i < front.len() {
                assert(front[i] == updates[i]);
            } else {
                assert(updates[i] == updates.last());
            }
        }
    }
}

/// The block that the pools are up to date for after some updates: that of the new
/// block, or of the reorganization, that came last among them, and the block as before
/// where none came.
pub proof fn pools_move_to_the_last_block(view: PoolsView, updates: Seq<PoolUpdate>, k: int)
    ensures
        0 <= k < updates.len() && (updates[k] is NewBlock || updates[k] is Reorg) && (forall|
            j: int,
        |
            k < j < updates.len() ==> !((#[trigger] updates[j]) is NewBlock)
                && !(updates[j] is Reorg)) ==> match updates[k] {
            PoolUpdate::NewBlock(block) => after_updates(view, updates).block_number == block,
            PoolUpdate::Reorg { to_block, .. } => after_updates(view, updates).block_number
                == to_block,
            _ => false,
        },
        (forall|j: int|
            0 <= j < updates.len() ==> !((#[trigger] updates[j]) is NewBlock)
                && !(updates[j] is Reorg)) ==> after_updates(view, updates).block_number
            == view.block_number,
{
    sorted_updates_follow_the_chain(updates);
    last_block_is_of_last_mover(updates);
    last_block_is_of_last_mover(stable_sort(updates));
    assert(last_block(stable_sort(updates)) == last_block(updates));
    if 0 <= k < updates.len() && (updates[k] is NewBlock || updates[k] is Reorg) && (forall|j: int|
        k < j < updates.len() ==> !((#[trigger] updates[j]) is NewBlock) && !(updates[j] is Reorg)) {
        last_mover_tells_block(updates, k);
    }
    if forall|j: int|
        0 <= j < updates.len() ==> !((#[trigger] updates[j]) is NewBlock) && !(updates[j] is Reorg) {
        no_mover_no_block(updates);
    }
}

/// Where none of some updates moves to a block, they move to none.
proof fn no_mover_no_block(updates: Seq<PoolUpdate>)
    requires
        forall|j: int|
            0 <= j < updates.len() ==> !((#[trigger] updates[j]) is NewBlock)
                && !(updates[j] is Reorg),
    ensures
        last_block(updates) is None,
    decreases updates.len(),
{
    if updates.len() != 0 {
        let front = updates.drop_last();
        assert(updates[updates.len() - 1] == updates.last());
        assert forall|j: int| 0 <= j < front.len() implies !((#[trigger] front[j]) is NewBlock)
            && !(front[j] is Reorg) by {
            assert(front[j] == updates[j]);
        }
        no_mover_no_block(front);
    }
}

/// Removing a key from the table removes its pool.
proof fn pools_of_remove(entries: Map<TableKey, BaselinePoolState>, id: PoolId)
    ensures
        pools_of(entries.remove(key_of(id))) == pools_of(entries).remove(id),
{
    assert forall|k: PoolId| key_of(k) == key_of(id) implies k == id by {
        assert(k.word == id.word);
    }
    assert(pools_of(entries.remove(key_of(id))) =~= pools_of(entries).remove(id));
}

/// Putting a state under a key of the table puts it under its pool.
proof fn pools_of_insert(
    entries: Map<TableKey, BaselinePoolState>,
    id: PoolId,
    state: BaselinePoolState,
)
    ensures
        pools_of(entries.insert(key_of(id), state)) == pools_of(entries).insert(id, state@),
{
    assert forall|k: PoolId| key_of(k) == key_of(id) implies k == id by {
        assert(k.word == id.word);
    }
    assert(pools_of(entries.insert(key_of(id), state)) =~= pools_of(entries).insert(id, state@));
}

/// The pools and the block that they are up to date for.
pub struct UniswapPools {
    pools: PoolTable,
    // what block these are up to date for.
    block_number: u64,
}

impl View for UniswapPools {
    type V = PoolsView;

    closed spec fn view(&self) -> PoolsView {
        PoolsView { pools: pools_of(table_entries(self.pools)), block_number: self.block_number }
    }
}

impl UniswapPools {
    /// The pools of a table at a block.
    pub fn new(pools: PoolTable, block_number: u64) -> (r: UniswapPools)
        ensures
            r@ == (PoolsView { pools: pools_of(table_entries(pools)), block_number }),
    {
        UniswapPools { pools, block_number }
    }

    /// No pools, at a block.
    pub fn empty(block_number: u64) -> (r: UniswapPools)
        ensures
            r@ == (PoolsView { pools: Map::empty(), block_number }),
    {
        let r: UniswapPools = UniswapPools { pools: table_new(), block_number };
        assert(r@.pools =~= Map::empty());
        r
    }

    /// The block that the pools are up to date for.
    pub fn get_block(&self) -> (r: u64)
        ensures
            r == self@.block_number,
    {
        self.block_number
    }

    /// A copy of the state of a pool.
    pub fn get_pool(&self, pool_id: &PoolId) -> (r: Option<BaselinePoolState>)
        ensures
            r is Some <==> self@.pools.contains_key(*pool_id),
            r matches Some(state) ==> state@ == self@.pools[*pool_id],
    {
        let w: U256 = pool_id.word;
        table_copy(&self.pools, &(w.l0, w.l1, w.l2, w.l3))
    }

    /// The identifiers of all pools, each once.
    pub fn pool_ids(&self) -> (r: Vec<PoolId>)
        ensures
            r@.no_duplicates(),
            r@.to_set() == self@.pools.dom(),
    {
        let keys: Vec<TableKey> = table_keys(&self.pools);
        let mut out: Vec<PoolId> = Vec::new();
        let mut i: usize = 0;
        while i < keys.len()
            invariant
                i <= keys.len(),
                out@ == Seq::new(i as nat, |j: int| id_of(keys@[j])),
            decreases keys.len() - i,
        {
            let key: TableKey = keys[i];
            out.push(B256 { word: U256 { l0: key.0, l1: key.1, l2: key.2, l3: key.3 } });
            i = i + 1;
            assert(out@ =~= Seq::new(i as nat, |j: int| id_of(keys@[j])));
        }
        proof {
            assert forall|a: int, b: int| 0 <= a < b < out@.len() implies out@[a] != out@[b] by {
                assert(keys@[a] != keys@[b]);
                assert(key_of(out@[a]) == keys@[a] && key_of(out@[b]) == keys@[b]);
            }
            assert forall|id: PoolId| #[trigger]
                out@.to_set().contains(id) == self@.pools.dom().contains(id) by {
                if out@.contains(id) {
                    let k = choose|k: int| 0 <= k < out@.len() && out@[k] == id;
                    assert(key_of(id) == keys@[k]);
                    assert(keys@.to_set().contains(keys@[k]));
                }
                if self@.pools.dom().contains(id) {
                    assert(keys@.to_set().contains(key_of(id)));
                    let k = choose|k: int| 0 <= k < keys@.len() && keys@[k] == key_of(id);
                    assert(id_of(key_of(id)) == id);
                    assert(out@[k] == id);
                }
            }
            assert(out@.to_set() =~= self@.pools.dom());
        }
        out
    }

    /// Copies of the states of all pools, with their identifiers, each once.
    pub fn get_pools(&self) -> (r: Vec<(PoolId, BaselinePoolState)>)
        ensures
            r@.len() == self@.pools.dom().len(),
            forall|i: int, j: int|
                0 <= i < j < r@.len() ==> (#[trigger] r@[i]).0 != (#[trigger] r@[j]).0,
            forall|i: int|
                0 <= i < r@.len() ==> self@.pools.contains_key((#[trigger] r@[i]).0) && r@[i].1@
                    == self@.pools[r@[i].0],
    {
        let ids: Vec<PoolId> = self.pool_ids();
        let mut out: Vec<(PoolId, BaselinePoolState)> = Vec::new();
        let mut i: usize = 0;
        proof {
            ids@.unique_seq_to_set();
        }
        while i < ids.len()
            invariant
                i <= ids.len(),
                out@.len() == i,
                ids@.to_set() == self@.pools.dom(),
                forall|j: int|
                    0 <= j < i ==> (#[trigger] out@[j]).0 == ids@[j] && self@.pools.contains_key(
                        out@[j].0,
                    ) && out@[j].1@ == self@.pools[out@[j].0],
            decreases ids.len() - i,
        {
            assert(ids@.to_set().contains(ids@[i as int]));
            match self.get_pool(&ids[i]) {
                Some(state) => {
                    out.push((ids[i], state));
                },
                None => {
                    assert(false);
                },
            }
            i = i + 1;
        }
        out
    }

    /// Puts a pool in, in place of any of the same identifier.
    pub fn insert(&mut self, pool_id: PoolId, state: BaselinePoolState)
        ensures
            final(self)@ == (PoolsView {
                pools: old(self)@.pools.insert(pool_id, state@),
                ..old(self)@
            }),
    {
        let w: U256 = pool_id.word;
        proof {
            pools_of_insert(table_entries(self.pools), pool_id, state);
        }
        table_insert(&mut self.pools, (w.l0, w.l1, w.l2, w.l3), state);
    }

    /// Takes a pool out.
    pub fn remove(&mut self, pool_id: &PoolId) -> (r: Option<BaselinePoolState>)
        ensures
            final(self)@ == (PoolsView {
                pools: old(self)@.pools.remove(*pool_id),
                ..old(self)@
            }),
            r is Some <==> old(self)@.pools.contains_key(*pool_id),
            r matches Some(state) ==> state@ == old(self)@.pools[*pool_id],
    {
        let w: U256 = pool_id.word;
        proof {
            pools_of_remove(table_entries(self.pools), *pool_id);
        }
        table_remove(&mut self.pools, &(w.l0, w.l1, w.l2, w.l3))
    }

    /// Applies one update to the state of its pool.
    fn apply(&mut self, update: PoolUpdate)
        ensures
            final(self)@ == (PoolsView {
                pools: pools_after(old(self)@.pools, update),
                ..old(self)@
            }),
    {
        match update {
            PoolUpdate::SwapEvent { pool_id, event, .. } => {
                if let Some(mut state) = self.remove(&pool_id) {
                    // update slot0 values
                    state.update_slot0(
                        event.tick,
                        SqrtPriceX96::from_u160(event.sqrt_price_x96),
                        event.liquidity,
                    );
                    self.insert(pool_id, state);
                }
            },
            PoolUpdate::LiquidityEvent { pool_id, event, .. } => {
                if let Some(mut state) = self.remove(&pool_id) {
                    state.update_liquidity(
                        event.tick_lower,
                        event.tick_upper,
                        event.liquidity_delta,
                    );
                    self.insert(pool_id, state);
                }
            },
            PoolUpdate::FeeUpdate { pool_id, bundle_fee, swap_fee, protocol_fee, .. } => {
                self.fee_update(&pool_id, bundle_fee, swap_fee, protocol_fee);
            },
            PoolUpdate::UpdatedSlot0 { pool_id, data } => {
                if let Some(mut state) = self.remove(&pool_id) {
                    state.update_slot0(
                        data.tick,
                        SqrtPriceX96::from_u160(data.sqrt_price_x96),
                        data.liquidity,
                    );
                    self.insert(pool_id, state);
                }
            },
            PoolUpdate::NewTicks { pool_id, ticks, tick_bitmap } => {
                if let Some(mut state) = self.remove(&pool_id) {
                    state.update_ticks(&ticks, &tick_bitmap);
                    self.insert(pool_id, state);
                }
            },
            PoolUpdate::NewPoolState { pool_id, state } => {
                self.insert(pool_id, state);
            },
            PoolUpdate::Slot0Update(update) => {
                self.slot0_update(update);
            },
            _ => {},
        }
        assert(self@.pools =~= pools_after(old(self)@.pools, update));
    }

    /// Takes over a price from the real-time feed, if the pool is known.
    pub fn slot0_update(&mut self, update: Slot0Update)
        ensures
            final(self)@ == (PoolsView {
                pools: pools_after(old(self)@.pools, PoolUpdate::Slot0Update(update)),
                ..old(self)@
            }),
    {
        if let Some(mut state) = self.remove(&update.angstrom_pool_id) {
            state.update_slot0(
                update.tick,
                SqrtPriceX96::from_u160(update.sqrt_price_x96),
                update.liquidity,
            );
            self.insert(update.angstrom_pool_id, state);
        }
        assert(self@.pools =~= pools_after(old(self)@.pools, PoolUpdate::Slot0Update(update)));
    }

    /// Puts new fees of a pool into force, if it is known.
    pub fn fee_update(
        &mut self,
        pool_id: &PoolId,
        bundle_fee: u32,
        swap_fee: u32,
        protocol_fee: u32,
    )
        ensures
            final(self)@ == (PoolsView {
                pools: with_changed(
                    old(self)@.pools,
                    *pool_id,
                    with_fees(old(self)@.pools[*pool_id], bundle_fee, swap_fee, protocol_fee),
                ),
                ..old(self)@
            }),
    {
        if let Some(mut state) = self.remove(pool_id) {
            state.update_fees(bundle_fee, swap_fee, protocol_fee);
            self.insert(*pool_id, state);
        }
        assert(self@.pools =~= with_changed(
            old(self)@.pools,
            *pool_id,
            with_fees(old(self)@.pools[*pool_id], bundle_fee, swap_fee, protocol_fee),
        ));
    }

    /// Applies updates in the order of the block, and says whether those who
    /// wait for a new block are to be notified.
    pub fn update_pools(&mut self, updates: Vec<PoolUpdate>) -> (r: bool)
        ensures
            final(self)@ == after_updates(old(self)@, updates@),
            r == (last_block(stable_sort(updates@)) is Some),
    {
        let mut new_block_number: Option<u64> = None;
        // we sort ascending
        let ghost sorted = stable_sort(updates@);
        let mut rest: Vec<PoolUpdate> = sort_updates(updates);
        assert(sorted.take(0) =~= Seq::<PoolUpdate>::empty());
        while rest.len() > 0
            invariant
                rest@.len() <= sorted.len(),
                rest@ == sorted.skip(sorted.len() - rest@.len()),
                self@.pools == pools_after_all(
                    old(self)@.pools,
                    sorted.take(sorted.len() - rest@.len()),
                ),
                self@.block_number == old(self)@.block_number,
                new_block_number == last_block(sorted.take(sorted.len() - rest@.len())),
            decreases rest.len(),
        {
            let ghost done = sorted.len() - rest@.len();
            let update: PoolUpdate = rest.remove(0);
            proof {
                assert(sorted.take(done + 1).drop_last() =~= sorted.take(done));
                assert(sorted.take(done + 1).last() == update);
                assert(rest@ =~= sorted.skip(done + 1));
            }
            match &update {
                PoolUpdate::NewBlock(block_number) => {
                    new_block_number = Some(*block_number);
                },
                PoolUpdate::Reorg { to_block, .. } => {
                    new_block_number = Some(*to_block);
                },
                _ => {},
            }
            self.apply(update);
        }
        assert(sorted.take(sorted.len() as int) =~= sorted);
        match new_block_number {
            Some(block_number) => {
                self.block_number = block_number;
                true
            },
            None => false,
        }
    }

    /// Update pools using a PoolUpdateDelivery source
    /// Processes all available updates from the source
    pub fn update_from_source<T: PoolUpdateDelivery>(&mut self, source: &mut T) -> (r: bool)
        ensures
            exists|updates: Seq<PoolUpdate>|
                #![trigger after_updates(old(self)@, updates)]
                drains(*old(source), *final(source), updates) && final(self)@ == after_updates(
                    old(self)@,
                    updates,
                ) && r == (last_block(stable_sort(updates)) is Some),
    {
        let mut updates: Vec<PoolUpdate> = Vec::new();
        // Collect all available updates using the extension trait
        let ghost mut states: Seq<T> = seq![*source];
        loop
            invariant_except_break
                delivers(states, updates@),
                states[0] == *old(source),
                states.last() == *source,
                states.len() == updates@.len() + 1,
            ensures
                drains(*old(source), *source, updates@),
            decreases source.backlog(),
        {
            let ghost before = *source;
            match source.next_update() {
                Some(update) => {
                    updates.push(update);
                    proof {
                        let more = states.push(*source);
                        assert forall|i: int| 0 <= i < updates@.len() implies #[trigger]
                            next_update_step(more[i], more[i + 1], Some(updates@[i])) by {
                            if i < updates@.len() - 1 {
                                assert(more[i] == states[i] && more[i + 1] == states[i + 1]);
                                assert(next_update_step(
                                    states[i],
                                    states[i + 1],
                                    Some(updates@.drop_last()[i]),
                                ));
                            }
                        }
                        states = more;
                    }
                },
                None => {
                    assert(delivers(states, updates@) && next_update_step(
                        states.last(),
                        *source,
                        None,
                    ));
                    break;
                },
            }
        }
        // Process them using the existing method
        self.update_pools(updates)
    }

    /// Processes the next update from a source. Tells whether it moved to a
    /// block, if there was one.
    pub fn update_next_from_source<T: PoolUpdateDelivery>(&mut self, source: &mut T) -> (r: Option<
        bool,
    >)
        ensures
            r matches Some(moved) ==> exists|update: PoolUpdate| #[trigger]
                next_update_step(*old(source), *final(source), Some(update)) && final(self)@
                    == after_updates(old(self)@, seq![update]) && moved == (last_block(
                    stable_sort(seq![update]),
                ) is Some),
            r is None ==> next_update_step(*old(source), *final(source), None) && final(self)@
                == old(self)@,
    {
        match source.next_update() {
            Some(update) => {
                let mut updates: Vec<PoolUpdate> = Vec::new();
                updates.push(update);
                assert(updates@ =~= seq![update]);
                Some(self.update_pools(updates))
            },
            None => None,
        }
    }

    /// Update pools by processing a single update from a PoolUpdateDelivery
    /// source Returns true if an update was processed, false if no updates
    /// were available
    pub fn update_single_from_source<T: PoolUpdateDelivery>(&mut self, source: &mut T) -> (r: bool)
        ensures
            r ==> exists|update: PoolUpdate| #[trigger]
                next_update_step(*old(source), *final(source), Some(update)) && final(self)@
                    == after_updates(old(self)@, seq![update]),
            !r ==> next_update_step(*old(source), *final(source), None) && final(self)@ == old(
                self,
            )@,
    {
        self.update_next_from_source(source).is_some()
    }
}

/// Whether a source goes through states by handing out updates, one from each
/// state to the next.
pub open spec fn delivers<T: PoolUpdateDelivery>(
    states: Seq<T>,
    updates: Seq<PoolUpdate>,
) -> bool {
    &&& states.len() == updates.len() + 1
    &&& forall|i: int|
        0 <= i < updates.len() ==> #[trigger] next_update_step(
            states[i],
            states[i + 1],
            Some(updates[i]),
        )
}

/// Whether a source hands out the given updates, and after them has none.
pub open spec fn drains<T: PoolUpdateDelivery>(
    before: T,
    after: T,
    updates: Seq<PoolUpdate>,
) -> bool {
    exists|states: Seq<T>| #[trigger]
        delivers(states, updates) && states[0] == before && next_update_step(
            states.last(),
            after,
            None,
        )
}

/// Draining a queue that hands out all of its updates applies them all, in the
/// order in which they were put in, and leaves the queue empty.
pub proof fn draining_empties_queue(
    before: PoolUpdateQueue,
    after: PoolUpdateQueue,
    updates: Seq<PoolUpdate>,
)
    requires
        drains(before, after, updates),
        forall|i: int| 0 <= i < before@.len() ==> is_deliverable(#[trigger] before@[i]),
    ensures
        updates == before@,
        after@.len() == 0,
{
    let states = choose|states: Seq<PoolUpdateQueue>| #[trigger]
        delivers(states, updates) && states[0] == before && next_update_step(
            states.last(),
            after,
            None,
        );
    queue_states(states, updates, updates.len() as int);
    queue_is_first_in_first_out(states.last(), after, None);
    if updates.len() < before@.len() {
        assert(states.last()@[0] == before@[updates.len() as int]);
        assert(is_deliverable(before@[updates.len() as int]));
    }
    assert(updates.take(updates.len() as int) =~= updates);
    assert(before@.take(updates.len() as int) =~= before@);
}

/// What a queue has handed out after some deliveries.
proof fn queue_states(states: Seq<PoolUpdateQueue>, updates: Seq<PoolUpdate>, n: int)
    requires
        delivers(states, updates),
        0 <= n <= updates.len(),
        forall|i: int| 0 <= i < states[0]@.len() ==> is_deliverable(#[trigger] states[0]@[i]),
    ensures
        n <= states[0]@.len(),
        states[n]@ == states[0]@.skip(n),
        updates.take(n) == states[0]@.take(n),
    decreases n,
{
    if n == 0 {
        assert(states[0]@.skip(0) =~= states[0]@);
        assert(updates.take(0) =~= states[0]@.take(0));
    } else {
        queue_states(states, updates, n - 1);
        assert(next_update_step(states[n - 1], states[n - 1 + 1], Some(updates[n - 1])));
        queue_is_first_in_first_out(states[n - 1], states[n], Some(updates[n - 1]));
        assert(states[n]@ =~= states[0]@.skip(n));
        assert(updates.take(n) =~= updates.take(n - 1).push(updates[n - 1]));
        assert(states[0]@.take(n) =~= states[0]@.take(n - 1).push(states[0]@[n - 1]));
    }
}

} // verus!
