//! Following the chain: what the logs of each block do to pools, and how that
//! is undone after a reorganization.
use std::collections::VecDeque;

use vstd::prelude::*;

use crate::events::{
    batch_updates_of, decode_batch_updates, decode_modify_liquidity, decode_pool_configured,
    decode_pool_fees_configured, decode_pool_removed, decode_swap, modify_liquidity_of,
    pool_configured_of, pool_fees_configured_of, pool_removed_of, swap_of, BatchUpdate, Log,
    PoolConfiguredEvent, PoolFeesConfiguredEvent, PoolRemovedEvent, Transaction,
};
use crate::id_collections::PoolIdSet;
use crate::pool_key::{pool_id_of, PoolKey};
use crate::pool_registry::{
    has_tokens, ids_with_tokens, ids_with_tokens_are_of_the_pair, RegistryView,
    UniswapPoolRegistry,
};
use crate::updates::{ModifyLiquidityEventData, PoolUpdate, Slot0Data, SwapEventData};
use crate::words::{half_256, Address, PoolId, I256};

verus! {

/// Number of blocks to keep in history for reorg detection
pub const REORG_DETECTION_BLOCKS: u64 = 10;

/// How many blocks one query spans when blocks are fetched again.
pub const CHUNK_SIZE: u64 = 100;

/// The protocol fee of a pool that was configured.
pub const CONFIGURED_PROTOCOL_FEE: u32 = 500;

/// Why following the chain failed.
#[derive(Debug)]
pub enum PoolUpdateError {
    /// Provider error
    Provider(String),
    /// Event decode error
    EventDecode(String),
    /// Reorg handling error
    ReorgHandling(String),
}

/// Stored event for reorg handling - only liquidity events need to be stored
#[derive(Clone, Copy, Debug, PartialEq, Eq, Structural)]
pub struct StoredEvent {
    pub block: u64,
    pub tx_index: u64,
    pub log_index: u64,
    pub pool_id: PoolId,
    pub liquidity_event: ModifyLiquidityEventData,
}

/// An index of a log, or zero where it has none.
pub open spec fn index_or_zero(index: Option<u64>) -> u64 {
    match index {
        Some(i) => i,
        None => 0,
    }
}

/// The index, or zero where there is none.
fn or_zero(index: Option<u64>) -> (r: u64)
    ensures
        r == index_or_zero(index),
{
    match index {
        Some(i) => i,
        None => 0,
    }
}

/// What a log of the pool manager says of a swap across a tracked pool.
pub open spec fn swap_updates(watched: Set<PoolId>, log: Log, block: u64) -> Seq<PoolUpdate> {
    match swap_of(log) {
        Some((pool_id, event)) => if watched.contains(pool_id) {
            seq![
                PoolUpdate::SwapEvent {
                    pool_id,
                    block,
                    tx_index: index_or_zero(log.transaction_index),
                    log_index: index_or_zero(log.log_index),
                    event,
                },
            ]
        } else {
            Seq::empty()
        },
        None => Seq::empty(),
    }
}

/// The liquidity event of a tracked pool that a log of the pool manager tells
/// of.
pub open spec fn stored_event_of(watched: Set<PoolId>, log: Log, block: u64) -> Option<
    StoredEvent,
> {
    match modify_liquidity_of(log) {
        Some((pool_id, event)) => if watched.contains(pool_id) {
            Some(
                StoredEvent {
                    block,
                    tx_index: index_or_zero(log.transaction_index),
                    log_index: index_or_zero(log.log_index),
                    pool_id,
                    liquidity_event: event,
                },
            )
        } else {
            None
        },
        None => None,
    }
}

/// The update that a stored event stands for.
pub open spec fn liquidity_update_of(event: StoredEvent) -> PoolUpdate {
    PoolUpdate::LiquidityEvent {
        pool_id: event.pool_id,
        block: event.block,
        tx_index: event.tx_index,
        log_index: event.log_index,
        event: event.liquidity_event,
    }
}

/// What a log of the pool manager says of the liquidity of a tracked pool.
pub open spec fn liquidity_updates(watched: Set<PoolId>, log: Log, block: u64) -> Seq<PoolUpdate> {
    match stored_event_of(watched, log, block) {
        Some(event) => seq![liquidity_update_of(event)],
        None => Seq::empty(),
    }
}

/// The key of a pool that the controller configured.
pub open spec fn configured_key(event: PoolConfiguredEvent, angstrom: Address) -> PoolKey {
    PoolKey {
        currency0: event.asset0,
        currency1: event.asset1,
        fee: event.bundle_fee,
        tick_spacing: event.tick_spacing as i32,
        hooks: angstrom,
    }
}

/// The key of a pool that the controller removed.
pub open spec fn removed_key(event: PoolRemovedEvent, angstrom: Address) -> PoolKey {
    PoolKey {
        currency0: event.asset0,
        currency1: event.asset1,
        fee: event.fee_in_e6,
        tick_spacing: event.tick_spacing,
        hooks: angstrom,
    }
}

/// The key of a pool that the controller configured with all of its fees.
pub open spec fn configured_key_with_fees(
    event: PoolFeesConfiguredEvent,
    angstrom: Address,
) -> PoolKey {
    PoolKey {
        currency0: event.asset0,
        currency1: event.asset1,
        fee: event.bundle_fee,
        tick_spacing: event.tick_spacing as i32,
        hooks: angstrom,
    }
}

/// What a log of the controller says of pools: that one was configured, in
/// either form of the event, or that one was removed.
pub open spec fn controller_updates(log: Log, block: u64, angstrom: Address) -> Seq<PoolUpdate> {
    let configured: Seq<PoolUpdate> = match pool_configured_of(log) {
        Some(event) => seq![
            PoolUpdate::PoolConfigured {
                pool_key: configured_key(event, angstrom),
                pool_id: pool_id_of(configured_key(event, angstrom)),
                block,
                bundle_fee: event.bundle_fee,
                swap_fee: event.fee_in_e6,
                protocol_fee: CONFIGURED_PROTOCOL_FEE,
                tick_spacing: event.tick_spacing as i32,
            },
        ],
        None => match pool_fees_configured_of(log) {
            Some(event) => seq![
                PoolUpdate::PoolConfigured {
                    pool_key: configured_key_with_fees(event, angstrom),
                    pool_id: pool_id_of(configured_key_with_fees(event, angstrom)),
                    block,
                    bundle_fee: event.bundle_fee,
                    swap_fee: event.unlocked_fee,
                    protocol_fee: event.protocol_unlocked_fee,
                    tick_spacing: event.tick_spacing as i32,
                },
            ],
            None => Seq::empty(),
        },
    };
    let removed: Seq<PoolUpdate> = match pool_removed_of(log) {
        Some(event) => seq![
            PoolUpdate::PoolRemoved { pool_id: pool_id_of(removed_key(event, angstrom)), block },
        ],
        None => Seq::empty(),
    };
    configured + removed
}

/// The update of one fee change of a pool.
pub open spec fn fee_change_of(update: BatchUpdate, block: u64, pool_id: PoolId) -> PoolUpdate {
    PoolUpdate::FeeUpdate {
        pool_id,
        block,
        bundle_fee: update.bundle_fee,
        swap_fee: update.unlocked_fee,
        protocol_fee: update.protocol_unlocked_fee,
    }
}

/// The updates of one fee change: one for each known pool of the two assets.
pub open spec fn fee_change(
    update: BatchUpdate,
    block: u64,
    known: Seq<(PoolId, PoolKey)>,
) -> Seq<PoolUpdate> {
    let ids = ids_with_tokens(known, update.asset_a, update.asset_b);
    Seq::new(ids.len(), |i: int| fee_change_of(update, block, ids[i]))
}

/// The updates of fee changes in turn.
pub open spec fn fee_changes(
    updates: Seq<BatchUpdate>,
    block: u64,
    known: Seq<(PoolId, PoolKey)>,
) -> Seq<PoolUpdate>
    decreases updates.len(),
{
    if updates.len() == 0 {
        Seq::empty()
    } else {
        fee_changes(updates.drop_last(), block, known) + fee_change(updates.last(), block, known)
    }
}

/// A fee change reaches every known pool of its two assets under the identifier
/// that the pool is registered by, and no other pool, in whatever order the
/// assets are given.
pub proof fn fee_change_reaches_its_pools(
    update: BatchUpdate,
    block: u64,
    known: Seq<(PoolId, PoolKey)>,
)
    ensures
        forall|id: PoolId| #[trigger]
            fee_change(update, block, known).contains(fee_change_of(update, block, id))
                <==> exists|i: int|
                0 <= i < known.len() && (#[trigger] known[i]).0 == id && has_tokens(
                    known[i].1,
                    update.asset_a,
                    update.asset_b,
                ),
        fee_change(update, block, known) == fee_change(
            BatchUpdate { asset_a: update.asset_b, asset_b: update.asset_a, ..update },
            block,
            known,
        ),
{
    let ids = ids_with_tokens(known, update.asset_a, update.asset_b);
    let changes = fee_change(update, block, known);
    ids_with_tokens_are_of_the_pair(known, update.asset_a, update.asset_b);
    assert forall|id: PoolId| #[trigger]
        changes.contains(fee_change_of(update, block, id)) <==> ids.contains(id) by {
        if changes.contains(fee_change_of(update, block, id)) {
            let k = choose|k: int|
                0 <= k < changes.len() && changes[k] == fee_change_of(update, block, id);
            assert(ids[k] == id);
        }
        if ids.contains(id) {
            let k = choose|k: int| 0 <= k < ids.len() && ids[k] == id;
            assert(changes[k] == fee_change_of(update, block, id));
        }
    }
    let swapped = BatchUpdate { asset_a: update.asset_b, asset_b: update.asset_a, ..update };
    assert(changes =~= fee_change(swapped, block, known));
}

/// What a transaction says of the fees of pools, if it calls the controller to
/// change them.
pub open spec fn transaction_updates(
    transaction: Transaction,
    block: u64,
    controller: Address,
    known: Seq<(PoolId, PoolKey)>,
) -> Seq<PoolUpdate> {
    if transaction.to == Some(controller) {
        match batch_updates_of(transaction.input@) {
            Some(updates) => fee_changes(updates, block, known),
            None => Seq::empty(),
        }
    } else {
        Seq::empty()
    }
}

/// The updates of swap logs in turn; of a log's own block, or of one block.
pub open spec fn all_swap_updates(
    watched: Set<PoolId>,
    logs: Seq<Log>,
    block: Option<u64>,
) -> Seq<PoolUpdate>
    decreases logs.len(),
{
    if logs.len() == 0 {
        Seq::empty()
    } else {
        all_swap_updates(watched, logs.drop_last(), block) + swap_updates(
            watched,
            logs.last(),
            block_for(logs.last(), block),
        )
    }
}

/// The updates of liquidity logs in turn; of a log's own block, or of one
/// block.
pub open spec fn all_liquidity_updates(
    watched: Set<PoolId>,
    logs: Seq<Log>,
    block: Option<u64>,
) -> Seq<PoolUpdate>
    decreases logs.len(),
{
    if logs.len() == 0 {
        Seq::empty()
    } else {
        all_liquidity_updates(watched, logs.drop_last(), block) + liquidity_updates(
            watched,
            logs.last(),
            block_for(logs.last(), block),
        )
    }
}

/// The updates of controller logs in turn; of a log's own block, or of one
/// block.
pub open spec fn all_controller_updates(
    logs: Seq<Log>,
    block: Option<u64>,
    angstrom: Address,
) -> Seq<PoolUpdate>
    decreases logs.len(),
{
    if logs.len() == 0 {
        Seq::empty()
    } else {
        all_controller_updates(logs.drop_last(), block, angstrom) + controller_updates(
            logs.last(),
            block_for(logs.last(), block),
            angstrom,
        )
    }
}

/// The updates of the transactions of a block in turn.
pub open spec fn all_transaction_updates(
    transactions: Seq<Transaction>,
    block: u64,
    controller: Address,
    known: Seq<(PoolId, PoolKey)>,
) -> Seq<PoolUpdate>
    decreases transactions.len(),
{
    if transactions.len() == 0 {
        Seq::empty()
    } else {
        all_transaction_updates(transactions.drop_last(), block, controller, known)
            + transaction_updates(transactions.last(), block, controller, known)
    }
}

/// The block of a log: the given one, or else its own.
pub open spec fn block_for(log: Log, block: Option<u64>) -> u64 {
    match block {
        Some(b) => b,
        None => index_or_zero(log.block_number),
    }
}

/// The oldest block that history goes back to.
pub open spec fn history_cutoff(current_block: u64) -> u64 {
    if current_block >= REORG_DETECTION_BLOCKS - 1 {
        (current_block - (REORG_DETECTION_BLOCKS - 1)) as u64
    } else {
        0
    }
}

/// The events of a history from a block on.
pub open spec fn since_block(history: Seq<StoredEvent>, block: u64) -> Seq<StoredEvent>
    decreases history.len(),
{
    if history.len() == 0 {
        Seq::empty()
    } else if history.last().block >= block {
        since_block(history.drop_last(), block).push(history.last())
    } else {
        since_block(history.drop_last(), block)
    }
}

/// The events of a history before a block.
pub open spec fn before_block(history: Seq<StoredEvent>, block: u64) -> Seq<StoredEvent>
    decreases history.len(),
{
    if history.len() == 0 {
        Seq::empty()
    } else if history.last().block < block {
        before_block(history.drop_last(), block).push(history.last())
    } else {
        before_block(history.drop_last(), block)
    }
}

/// The history with one more event, as far back as it goes.
pub open spec fn with_event(
    history: Seq<StoredEvent>,
    event: StoredEvent,
    current_block: u64,
) -> Seq<StoredEvent> {
    since_block(history.push(event), history_cutoff(current_block))
}

/// The history after liquidity logs of a block.
pub open spec fn history_after_logs(
    history: Seq<StoredEvent>,
    watched: Set<PoolId>,
    logs: Seq<Log>,
    block: u64,
    current_block: u64,
) -> Seq<StoredEvent>
    decreases logs.len(),
{
    if logs.len() == 0 {
        history
    } else {
        let front = history_after_logs(history, watched, logs.drop_last(), block, current_block);
        match stored_event_of(watched, logs.last(), block) {
            Some(event) => with_event(front, event, current_block),
            None => front,
        }
    }
}

/// The history after updates, of which only liquidity events are kept.
pub open spec fn history_after_updates(
    history: Seq<StoredEvent>,
    updates: Seq<PoolUpdate>,
    current_block: u64,
) -> Seq<StoredEvent>
    decreases updates.len(),
{
    if updates.len() == 0 {
        history
    } else {
        let front = history_after_updates(history, updates.drop_last(), current_block);
        match event_of(updates.last()) {
            Some(event) => with_event(front, event, current_block),
            None => front,
        }
    }
}

/// The event that an update is stored as: only liquidity events are.
pub open spec fn event_of(update: PoolUpdate) -> Option<StoredEvent> {
    match update {
        PoolUpdate::LiquidityEvent { pool_id, block, tx_index, log_index, event } => Some(
            StoredEvent { block, tx_index, log_index, pool_id, liquidity_event: event },
        ),
        _ => None,
    }
}

/// A stored event is what its update is stored as.
pub proof fn stored_event_roundtrip(event: StoredEvent)
    ensures
        event_of(liquidity_update_of(event)) == Some(event),
{
}

/// Cutting history at a block parts it in two: what is kept after the cut are
/// exactly the events from that block on, what is kept before it are exactly the
/// events of earlier blocks, both in their order.
pub proof fn history_is_cut_at_block(history: Seq<StoredEvent>, block: u64)
    ensures
        since_block(history, block) == history.filter(|e: StoredEvent| e.block >= block),
        before_block(history, block) == history.filter(|e: StoredEvent| e.block < block),
        since_block(history, block).len() + before_block(history, block).len() == history.len(),
    decreases history.len(),
{
    reveal(Seq::filter);
    if history.len() != 0 {
        history_is_cut_at_block(history.drop_last(), block);
    }
}

/// The word that holds the negation of a number.
pub open spec fn negation(delta: I256) -> I256 {
    choose|r: I256| r@ == -delta@
}

/// The event that undoes a liquidity event.
pub open spec fn inverse_of(event: StoredEvent) -> PoolUpdate {
    PoolUpdate::LiquidityEvent {
        pool_id: event.pool_id,
        block: event.block,
        tx_index: event.tx_index,
        log_index: event.log_index,
        event: ModifyLiquidityEventData {
            liquidity_delta: negation(event.liquidity_event.liquidity_delta),
            ..event.liquidity_event
        },
    }
}

/// The events that undo those of a range of blocks, the most recent first.
pub open spec fn inverse_events(
    history: Seq<StoredEvent>,
    from_block: u64,
    to_block: u64,
) -> Seq<PoolUpdate>
    decreases history.len(),
{
    if history.len() == 0 {
        Seq::empty()
    } else {
        let rest = inverse_events(history.drop_last(), from_block, to_block);
        if from_block <= history.last().block <= to_block {
            seq![inverse_of(history.last())] + rest
        } else {
            rest
        }
    }
}

/// Whether every event of a range of blocks can be undone: its delta has a
/// negation.
pub open spec fn can_invert(history: Seq<StoredEvent>, from_block: u64, to_block: u64) -> bool {
    forall|i: int|
        0 <= i < history.len() && from_block <= (#[trigger] history[i]).block <= to_block
            ==> history[i].liquidity_event.liquidity_delta@ != -half_256()
}

/// The pool that an update is about, if it is about one.
pub open spec fn pool_of(update: PoolUpdate) -> Option<PoolId> {
    match update {
        PoolUpdate::SwapEvent { pool_id, .. } => Some(pool_id),
        PoolUpdate::LiquidityEvent { pool_id, .. } => Some(pool_id),
        PoolUpdate::UpdatedSlot0 { pool_id, .. } => Some(pool_id),
        PoolUpdate::PoolConfigured { pool_id, .. } => Some(pool_id),
        PoolUpdate::PoolRemoved { pool_id, .. } => Some(pool_id),
        PoolUpdate::FeeUpdate { pool_id, .. } => Some(pool_id),
        _ => None,
    }
}

/// The pools that updates are about.
pub open spec fn affected_pools(updates: Seq<PoolUpdate>) -> Set<PoolId>
    decreases updates.len(),
{
    if updates.len() == 0 {
        Set::empty()
    } else {
        match pool_of(updates.last()) {
            Some(id) => affected_pools(updates.drop_last()).insert(id),
            None => affected_pools(updates.drop_last()),
        }
    }
}

/// The identifier that a known pool goes by on chain, whichever of its two
/// identifiers it is given by.
pub open spec fn chain_id(registry: RegistryView, id: PoolId) -> Option<PoolId> {
    if registry.conversion_map.contains_key(id) {
        Some(registry.conversion_map[id])
    } else if registry.reverse_conversion_map.contains_key(id) {
        Some(id)
    } else {
        None
    }
}

/// What was fetched again of a range of blocks.
#[derive(Debug)]
pub struct BackfillChunk {
    pub swap_logs: Vec<Log>,
    pub modify_logs: Vec<Log>,
    pub controller_logs: Vec<Log>,
    /// the transactions of each block, by its number
    pub blocks: Vec<(u64, Vec<Transaction>)>,
}

/// What was fetched of a block, with the error where a query failed.
#[derive(Debug)]
pub struct BlockLogs {
    /// the swap logs and the liquidity logs
    pub pool_logs: Result<(Vec<Log>, Vec<Log>), PoolUpdateError>,
    pub controller_logs: Result<Vec<Log>, PoolUpdateError>,
    pub transactions: Result<Vec<Transaction>, PoolUpdateError>,
}

/// The updates of the transactions of blocks in turn.
pub open spec fn all_block_updates(
    blocks: Seq<(u64, Vec<Transaction>)>,
    controller: Address,
    known: Seq<(PoolId, PoolKey)>,
) -> Seq<PoolUpdate>
    decreases blocks.len(),
{
    if blocks.len() == 0 {
        Seq::empty()
    } else {
        all_block_updates(blocks.drop_last(), controller, known) + all_transaction_updates(
            blocks.last().1@,
            blocks.last().0,
            controller,
            known,
        )
    }
}

/// The updates of what was fetched again of a range of blocks: of the swaps,
/// the liquidity events, the logs of the controller and the transactions, in
/// this order.
pub open spec fn chunk_updates(
    watched: Set<PoolId>,
    chunk: BackfillChunk,
    controller: Address,
    angstrom: Address,
    known: Seq<(PoolId, PoolKey)>,
) -> Seq<PoolUpdate> {
    all_swap_updates(watched, chunk.swap_logs@, None) + all_liquidity_updates(
        watched,
        chunk.modify_logs@,
        None,
    ) + all_controller_updates(chunk.controller_logs@, None, angstrom) + all_block_updates(
        chunk.blocks@,
        controller,
        known,
    )
}

/// The updates of ranges of blocks in turn.
pub open spec fn all_chunk_updates(
    watched: Set<PoolId>,
    chunks: Seq<BackfillChunk>,
    controller: Address,
    angstrom: Address,
    known: Seq<(PoolId, PoolKey)>,
) -> Seq<PoolUpdate>
    decreases chunks.len(),
{
    if chunks.len() == 0 {
        Seq::empty()
    } else {
        all_chunk_updates(watched, chunks.drop_last(), controller, angstrom, known) + chunk_updates(
            watched,
            chunks.last(),
            controller,
            angstrom,
            known,
        )
    }
}

/// Whether a log says where in its block it stands.
pub open spec fn has_position(log: Log) -> bool {
    log.transaction_index is Some && log.log_index is Some
}

/// Whether the logs of a range of blocks say where they stand: swap and
/// controller logs in which block, and those of tracked pools where in it.
pub open spec fn chunk_is_mined(watched: Set<PoolId>, chunk: BackfillChunk) -> bool {
    &&& forall|i: int|
        0 <= i < chunk.swap_logs@.len() ==> (#[trigger] chunk.swap_logs@[i]).block_number is Some
            && (swap_updates(watched, chunk.swap_logs@[i], 0).len() > 0 ==> has_position(
            chunk.swap_logs@[i],
        ))
    &&& forall|i: int|
        0 <= i < chunk.modify_logs@.len() && stored_event_of(
            watched,
            #[trigger] chunk.modify_logs@[i],
            0,
        ) is Some ==> has_position(chunk.modify_logs@[i])
    &&& forall|i: int|
        0 <= i < chunk.controller_logs@.len() ==> (
        #[trigger] chunk.controller_logs@[i]).block_number is Some
}

/// The block ranges in which blocks are fetched again.
pub open spec fn chunk_ranges(from_block: int, to_block: int) -> Seq<(u64, u64)>
    decreases to_block - from_block + 1,
{
    if from_block > to_block {
        Seq::empty()
    } else {
        let end = if from_block + CHUNK_SIZE - 1 <= to_block {
            from_block + CHUNK_SIZE - 1
        } else {
            to_block
        };
        seq![(from_block as u64, end as u64)] + chunk_ranges(end + 1, to_block)
    }
}

/// Each block of a range lies in exactly one of its chunks.
pub proof fn chunk_ranges_partition(from_block: int, to_block: int, block: int)
    requires
        0 <= from_block,
        to_block <= u64::MAX,
        from_block <= block <= to_block,
    ensures
        exists|i: int|
            0 <= i < chunk_ranges(from_block, to_block).len() && (#[trigger] chunk_ranges(
                from_block,
                to_block,
            )[i]).0 <= block <= chunk_ranges(from_block, to_block)[i].1,
        forall|i: int, j: int|
            0 <= i < j < chunk_ranges(from_block, to_block).len() ==> (#[trigger] chunk_ranges(
                from_block,
                to_block,
            )[i]).1 < (#[trigger] chunk_ranges(from_block, to_block)[j]).0,
        forall|i: int|
            0 <= i < chunk_ranges(from_block, to_block).len() ==> from_block <= (
            #[trigger] chunk_ranges(from_block, to_block)[i]).0,
    decreases to_block - from_block + 1,
{
    let end = if from_block + CHUNK_SIZE - 1 <= to_block {
        from_block + CHUNK_SIZE - 1
    } else {
        to_block
    };
    let all = chunk_ranges(from_block, to_block);
    let rest = chunk_ranges(end + 1, to_block);
    assert(all[0] == (from_block as u64, end as u64));
    if end < to_block {
        chunk_ranges_partition(
            end + 1,
            to_block,
            if block > end {
                block
            } else {
                end + 1
            },
        );
        assert forall|i: int, j: int| 0 <= i < j < all.len() implies (#[trigger] all[i]).1 < (
        #[trigger] all[j]).0 by {
            assert(all[j] == rest[j - 1]);
            if i > 0 {
                assert(all[i] == rest[i - 1]);
            }
        }
        assert forall|i: int| 0 <= i < all.len() implies from_block <= (#[trigger] all[i]).0 by {
            if i > 0 {
                assert(all[i] == rest[i - 1]);
            }
        }
        if block > end {
            let k = choose|k: int|
                0 <= k < rest.len() && (#[trigger] rest[k]).0 <= block <= rest[k].1;
            assert(all[k + 1] == rest[k]);
        } else {
            assert(all[0].0 <= block <= all[0].1);
        }
    } else {
        assert(rest.len() == 0);
        assert(all[0].0 <= block <= all[0].1);
    }
}

/// The block ranges in which blocks are fetched again.
pub fn backfill_ranges(from_block: u64, to_block: u64) -> (r: Vec<(u64, u64)>)
    requires
        from_block <= to_block ==> to_block <= u64::MAX - CHUNK_SIZE,
    ensures
        r@ == chunk_ranges(from_block as int, to_block as int),
{
    let mut ranges: Vec<(u64, u64)> = Vec::new();
    let mut current: u64 = from_block;
    assert(Seq::<(u64, u64)>::empty() + chunk_ranges(from_block as int, to_block as int)
        =~= chunk_ranges(from_block as int, to_block as int));
    while current <= to_block
        invariant
            current <= to_block ==> to_block <= u64::MAX - CHUNK_SIZE,
            ranges@ + chunk_ranges(current as int, to_block as int) == chunk_ranges(
                from_block as int,
                to_block as int,
            ),
        decreases to_block + 1 - current,
    {
        let end: u64 = if current + CHUNK_SIZE - 1 <= to_block {
            current + CHUNK_SIZE - 1
        } else {
            to_block
        };
        proof {
            let range = (current, end);
            let rest = chunk_ranges(end + 1, to_block as int);
            assert(ranges@ + (seq![range] + rest) =~= ranges@.push(range) + rest);
        }
        ranges.push((current, end));
        current = end + 1;
    }
    assert(ranges@ + chunk_ranges(current as int, to_block as int) =~= ranges@);
    ranges
}

/// What a provider of updates knows.
#[verifier::ext_equal]
pub struct ProviderView {
    pub pool_manager: Address,
    pub controller_address: Address,
    pub angstrom_address: Address,
    pub pool_registry: RegistryView,
    /// the registered pools in the order in which they came
    pub known_pools: Seq<(PoolId, PoolKey)>,
    pub watched: Set<PoolId>,
    pub history: Seq<StoredEvent>,
    pub current_block: u64,
}

/// What the provider does with a new block.
#[derive(Clone, Copy, Debug, PartialEq, Eq, Structural)]
pub enum BlockStep {
    /// The block has the number of the current one: the chain was reorganized.
    Reorg,
    /// The block comes after the current one.
    Advance,
    /// The block is an old one.
    Ignore,
}

/// Pool update provider that streams pool state changes
#[derive(Debug)]
pub struct PoolUpdateProvider {
    pub pool_manager: Address,
    pub controller_address: Address,
    pub angstrom_address: Address,
    pub pool_registry: UniswapPoolRegistry,
    pub tracked_pools: PoolIdSet,
    pub event_history: VecDeque<StoredEvent>,
    pub current_block: u64,
}

impl View for PoolUpdateProvider {
    type V = ProviderView;

    open spec fn view(&self) -> ProviderView {
        ProviderView {
            pool_manager: self.pool_manager,
            controller_address: self.controller_address,
            angstrom_address: self.angstrom_address,
            pool_registry: self.pool_registry@,
            known_pools: self.pool_registry.pools.order(),
            watched: self.tracked_pools@,
            history: self.event_history@,
            current_block: self.current_block,
        }
    }
}

/// The updates of a block without errors: of the swaps, the liquidity events,
/// the logs of the controller and the transactions, in this order.
pub open spec fn block_updates(
    view: ProviderView,
    block: u64,
    swap_logs: Seq<Log>,
    modify_logs: Seq<Log>,
    controller_logs: Seq<Log>,
    transactions: Seq<Transaction>,
) -> Seq<PoolUpdate> {
    all_swap_updates(view.watched, swap_logs, Some(block)) + all_liquidity_updates(
        view.watched,
        modify_logs,
        Some(block),
    ) + all_controller_updates(controller_logs, Some(block), view.angstrom_address)
        + all_transaction_updates(
        transactions,
        block,
        view.controller_address,
        view.known_pools,
    )
}

/// The history after a block: that with its liquidity events, unless no pool
/// is tracked or these could not be fetched.
pub open spec fn history_after_block(
    view: ProviderView,
    block: u64,
    fetched: BlockLogs,
) -> Seq<StoredEvent> {
    if view.watched == Set::<PoolId>::empty() {
        view.history
    } else {
        match fetched.pool_logs {
            Ok((_, modify_logs)) => history_after_logs(
                view.history,
                view.watched,
                modify_logs@,
                block,
                view.current_block,
            ),
            Err(_) => view.history,
        }
    }
}

impl PoolUpdateProvider {
    /// Create a new pool update provider
    pub fn new(
        pool_manager: Address,
        controller_address: Address,
        angstrom_address: Address,
        pool_registry: UniswapPoolRegistry,
        current_block: u64,
    ) -> (r: PoolUpdateProvider)
        ensures
            r@ == (ProviderView {
                pool_manager,
                controller_address,
                angstrom_address,
                pool_registry: pool_registry@,
                known_pools: pool_registry.pools.order(),
                watched: Set::empty(),
                history: Seq::empty(),
                current_block,
            }),
    {
        PoolUpdateProvider {
            pool_manager,
            controller_address,
            angstrom_address,
            pool_registry,
            tracked_pools: PoolIdSet::new(),
            event_history: VecDeque::new(),
            current_block,
        }
    }

    /// Add a pool to track
    pub fn add_pool(&mut self, pool_id: PoolId)
        ensures
            final(self)@ == (ProviderView {
                watched: old(self)@.watched.insert(pool_id),
                ..old(self)@
            }),
    {
        self.tracked_pools.insert(pool_id);
    }

    /// Remove a pool from tracking
    pub fn remove_pool(&mut self, pool_id: PoolId)
        ensures
            final(self)@ == (ProviderView {
                watched: old(self)@.watched.remove(pool_id),
                ..old(self)@
            }),
    {
        self.tracked_pools.remove(&pool_id);
    }

    /// Get all tracked pool IDs
    pub fn tracked_pools(&self) -> (r: Vec<PoolId>)
        ensures
            r@.no_duplicates(),
            r@.to_set() == self@.watched,
    {
        self.tracked_pools.to_vec()
    }

    /// Appends the updates of swap logs.
    fn push_swaps(&self, logs: &Vec<Log>, block: Option<u64>, updates: &mut Vec<PoolUpdate>)
        ensures
            final(updates)@ == old(updates)@ + all_swap_updates(self@.watched, logs@, block),
    {
        let mut i: usize = 0;
        assert(updates@ =~= old(updates)@ + all_swap_updates(self@.watched, logs@.take(0), block));
        while i < logs.len()
            invariant
                i <= logs.len(),
                updates@ == old(updates)@ + all_swap_updates(
                    self@.watched,
                    logs@.take(i as int),
                    block,
                ),
            decreases logs.len() - i,
        {
            let log: &Log = &logs[i];
            let ghost before = updates@;
            let block_number: u64 = match block {
                Some(b) => b,
                None => or_zero(log.block_number),
            };
            if let Some(decoded) = decode_swap(log) {
                let (pool_id, event): (PoolId, SwapEventData) = decoded;
                // Double-check the pool ID (should already be filtered)
                if self.tracked_pools.contains(&pool_id) {
                    // Don't store swap events in history - we'll re-query slot0 on reorg
                    updates.push(
                        PoolUpdate::SwapEvent {
                            pool_id,
                            block: block_number,
                            tx_index: or_zero(log.transaction_index),
                            log_index: or_zero(log.log_index),
                            event,
                        },
                    );
                }
            }
            proof {
                assert(logs@.take(i + 1).drop_last() =~= logs@.take(i as int));
                assert(updates@ =~= before + swap_updates(self@.watched, *log, block_number));
                assert(updates@ =~= old(updates)@ + all_swap_updates(
                    self@.watched,
                    logs@.take(i + 1),
                    block,
                ));
            }
            i = i + 1;
        }
        assert(logs@.take(i as int) =~= logs@);
    }

    /// The liquidity event of a tracked pool that a log tells of.
    fn stored_event(&self, log: &Log, block: u64) -> (r: Option<StoredEvent>)
        ensures
            r == stored_event_of(self@.watched, *log, block),
    {
        if let Some(decoded) = decode_modify_liquidity(log) {
            let (pool_id, event): (PoolId, ModifyLiquidityEventData) = decoded;
            // Double-check the pool ID (should already be filtered)
            if self.tracked_pools.contains(&pool_id) {
                return Some(
                    StoredEvent {
                        block,
                        tx_index: or_zero(log.transaction_index),
                        log_index: or_zero(log.log_index),
                        pool_id,
                        liquidity_event: event,
                    },
                );
            }
        }
        None
    }

    /// Appends the updates of liquidity logs.
    fn push_liquidity(&self, logs: &Vec<Log>, block: Option<u64>, updates: &mut Vec<PoolUpdate>)
        ensures
            final(updates)@ == old(updates)@ + all_liquidity_updates(self@.watched, logs@, block),
    {
        let mut i: usize = 0;
        assert(updates@ =~= old(updates)@ + all_liquidity_updates(
            self@.watched,
            logs@.take(0),
            block,
        ));
        while i < logs.len()
            invariant
                i <= logs.len(),
                updates@ == old(updates)@ + all_liquidity_updates(
                    self@.watched,
                    logs@.take(i as int),
                    block,
                ),
            decreases logs.len() - i,
        {
            let log: &Log = &logs[i];
            let ghost before = updates@;
            let block_number: u64 = match block {
                Some(b) => b,
                None => or_zero(log.block_number),
            };
            if let Some(e) = self.stored_event(log, block_number) {
                updates.push(
                    PoolUpdate::LiquidityEvent {
                        pool_id: e.pool_id,
                        block: e.block,
                        tx_index: e.tx_index,
                        log_index: e.log_index,
                        event: e.liquidity_event,
                    },
                );
            }
            proof {
                assert(logs@.take(i + 1).drop_last() =~= logs@.take(i as int));
                assert(updates@ =~= before + liquidity_updates(self@.watched, *log, block_number));
                assert(updates@ =~= old(updates)@ + all_liquidity_updates(
                    self@.watched,
                    logs@.take(i + 1),
                    block,
                ));
            }
            i = i + 1;
        }
        assert(logs@.take(i as int) =~= logs@);
    }

    /// Appends the updates of controller logs.
    fn push_controller(&self, logs: &Vec<Log>, block: Option<u64>, updates: &mut Vec<PoolUpdate>)
        ensures
            final(updates)@ == old(updates)@ + all_controller_updates(
                logs@,
                block,
                self@.angstrom_address,
            ),
    {
        let mut i: usize = 0;
        assert(updates@ =~= old(updates)@ + all_controller_updates(
            logs@.take(0),
            block,
            self@.angstrom_address,
        ));
        while i < logs.len()
            invariant
                i <= logs.len(),
                updates@ == old(updates)@ + all_controller_updates(
                    logs@.take(i as int),
                    block,
                    self@.angstrom_address,
                ),
            decreases logs.len() - i,
        {
            let log: &Log = &logs[i];
            let ghost before = updates@;
            let block_number: u64 = match block {
                Some(b) => b,
                None => or_zero(log.block_number),
            };
            if let Some(event) = decode_pool_configured(log) {
                let pool_key: PoolKey = PoolKey {
                    currency0: event.asset0,
                    currency1: event.asset1,
                    fee: event.bundle_fee,
                    tick_spacing: event.tick_spacing as i32,
                    hooks: self.angstrom_address,
                };
                updates.push(
                    PoolUpdate::PoolConfigured {
                        pool_key,
                        pool_id: PoolId::from(pool_key),
                        block: block_number,
                        bundle_fee: event.bundle_fee,
                        swap_fee: event.fee_in_e6,
                        protocol_fee: CONFIGURED_PROTOCOL_FEE,
                        tick_spacing: event.tick_spacing as i32,
                    },
                );
            } else if let Some(event) = decode_pool_fees_configured(log) {
                let pool_key: PoolKey = PoolKey {
                    currency0: event.asset0,
                    currency1: event.asset1,
                    fee: event.bundle_fee,
                    tick_spacing: event.tick_spacing as i32,
                    hooks: self.angstrom_address,
                };
                updates.push(
                    PoolUpdate::PoolConfigured {
                        pool_key,
                        pool_id: PoolId::from(pool_key),
                        block: block_number,
                        bundle_fee: event.bundle_fee,
                        swap_fee: event.unlocked_fee,
                        protocol_fee: event.protocol_unlocked_fee,
                        tick_spacing: event.tick_spacing as i32,
                    },
                );
            }
            if let Some(event) = decode_pool_removed(log) {
                let pool_key: PoolKey = PoolKey {
                    currency0: event.asset0,
                    currency1: event.asset1,
                    fee: event.fee_in_e6,
                    tick_spacing: event.tick_spacing,
                    hooks: self.angstrom_address,
                };
                updates.push(
                    PoolUpdate::PoolRemoved {
                        pool_id: PoolId::from(pool_key),
                        block: block_number,
                    },
                );
            }
            proof {
                assert(logs@.take(i + 1).drop_last() =~= logs@.take(i as int));
                assert(updates@ =~= before + controller_updates(
                    *log,
                    block_number,
                    self@.angstrom_address,
                ));
                assert(updates@ =~= old(updates)@ + all_controller_updates(
                    logs@.take(i + 1),
                    block,
                    self@.angstrom_address,
                ));
            }
            i = i + 1;
        }
        assert(logs@.take(i as int) =~= logs@);
    }

    /// Appends the updates of a fee change.
    fn push_fee_change(&self, update: BatchUpdate, block: u64, updates: &mut Vec<PoolUpdate>)
        ensures
            final(updates)@ == old(updates)@ + fee_change(update, block, self@.known_pools),
    {
        let ids: Vec<PoolId> = self.pool_registry.get_pool_ids_by_token_pair(
            update.asset_a,
            update.asset_b,
        );
        let ghost all = fee_change(update, block, self@.known_pools);
        let mut i: usize = 0;
        assert(updates@ =~= old(updates)@ + all.take(0));
        while i < ids.len()
            invariant
                i <= ids.len(),
                ids@ == ids_with_tokens(self@.known_pools, update.asset_a, update.asset_b),
                all == fee_change(update, block, self@.known_pools),
                updates@ == old(updates)@ + all.take(i as int),
            decreases ids.len() - i,
        {
            updates.push(
                PoolUpdate::FeeUpdate {
                    pool_id: ids[i],
                    block,
                    bundle_fee: update.bundle_fee,
                    swap_fee: update.unlocked_fee,
                    protocol_fee: update.protocol_unlocked_fee,
                },
            );
            i = i + 1;
            assert(updates@ =~= old(updates)@ + all.take(i as int));
        }
        assert(all.take(i as int) =~= all);
    }

    /// Appends the updates of fee changes.
    fn push_fee_changes(
        &self,
        changes: &Vec<BatchUpdate>,
        block: u64,
        updates: &mut Vec<PoolUpdate>,
    )
        ensures
            final(updates)@ == old(updates)@ + fee_changes(changes@, block, self@.known_pools),
    {
        let mut i: usize = 0;
        assert(updates@ =~= old(updates)@ + fee_changes(
            changes@.take(0),
            block,
            self@.known_pools,
        ));
        while i < changes.len()
            invariant
                i <= changes.len(),
                updates@ == old(updates)@ + fee_changes(
                    changes@.take(i as int),
                    block,
                    self@.known_pools,
                ),
            decreases changes.len() - i,
        {
            assert(changes@.take(i + 1).drop_last() =~= changes@.take(i as int));
            self.push_fee_change(changes[i], block, updates);
            i = i + 1;
            assert(updates@ =~= old(updates)@ + fee_changes(
                changes@.take(i as int),
                block,
                self@.known_pools,
            ));
        }
        assert(changes@.take(i as int) =~= changes@);
    }

    /// Appends the updates of the transactions of a block.
    fn push_transactions(
        &self,
        transactions: &Vec<Transaction>,
        block: u64,
        updates: &mut Vec<PoolUpdate>,
    )
        ensures
            final(updates)@ == old(updates)@ + all_transaction_updates(
                transactions@,
                block,
                self@.controller_address,
                self@.known_pools,
            ),
    {
        let mut i: usize = 0;
        assert(updates@ =~= old(updates)@ + all_transaction_updates(
            transactions@.take(0),
            block,
            self@.controller_address,
            self@.known_pools,
        ));
        while i < transactions.len()
            invariant
                i <= transactions.len(),
                updates@ == old(updates)@ + all_transaction_updates(
                    transactions@.take(i as int),
                    block,
                    self@.controller_address,
                    self@.known_pools,
                ),
            decreases transactions.len() - i,
        {
            let transaction: &Transaction = &transactions[i];
            let ghost before = updates@;
            // Check if transaction is to the controller
            let to_controller: bool = match transaction.to {
                Some(to) => to == self.controller_address,
                None => false,
            };
            if to_controller {
                // Try to decode as batchUpdatePools call
                if let Some(changes) = decode_batch_updates(&transaction.input) {
                    self.push_fee_changes(&changes, block, updates);
                }
            }
            proof {
                assert(transactions@.take(i + 1).drop_last() =~= transactions@.take(i as int));
                assert(updates@ =~= before + transaction_updates(
                    *transaction,
                    block,
                    self@.controller_address,
                    self@.known_pools,
                ));
                assert(updates@ =~= old(updates)@ + all_transaction_updates(
                    transactions@.take(i + 1),
                    block,
                    self@.controller_address,
                    self@.known_pools,
                ));
            }
            i = i + 1;
        }
        assert(transactions@.take(i as int) =~= transactions@);
    }
}

/// Appending one after the other is appending all together.
proof fn concat_assoc<T>(a: Seq<T>, b: Seq<T>, c: Seq<T>, d: Seq<T>, e: Seq<T>)
    ensures
        a + b + c + d + e == a + (b + c + d + e),
{
    assert(a + b + c + d + e =~= a + (b + c + d + e));
}

/// The events of a history from a block on.
fn keep_since(history: &VecDeque<StoredEvent>, block: u64) -> (r: VecDeque<StoredEvent>)
    ensures
        r@ == since_block(history@, block),
{
    let mut out: VecDeque<StoredEvent> = VecDeque::new();
    let mut i: usize = 0;
    while i < history.len()
        invariant
            i <= history.len(),
            out@ == since_block(history@.take(i as int), block),
        decreases history.len() - i,
    {
        let event: StoredEvent = history[i];
        assert(history@.take(i + 1).drop_last() =~= history@.take(i as int));
        if event.block >= block {
            out.push_back(event);
        }
        i = i + 1;
    }
    assert(history@.take(i as int) =~= history@);
    out
}

/// The events of a history before a block.
fn keep_before(history: &VecDeque<StoredEvent>, block: u64) -> (r: VecDeque<StoredEvent>)
    ensures
        r@ == before_block(history@, block),
{
    let mut out: VecDeque<StoredEvent> = VecDeque::new();
    let mut i: usize = 0;
    while i < history.len()
        invariant
            i <= history.len(),
            out@ == before_block(history@.take(i as int), block),
        decreases history.len() - i,
    {
        let event: StoredEvent = history[i];
        assert(history@.take(i + 1).drop_last() =~= history@.take(i as int));
        if event.block < block {
            out.push_back(event);
        }
        i = i + 1;
    }
    assert(history@.take(i as int) =~= history@);
    out
}

/// Convert PoolUpdate to StoredEvent for history
/// Only liquidity events are stored since we re-query slot0 after reorgs
pub fn update_to_stored_event(update: &PoolUpdate) -> (r: Option<StoredEvent>)
    ensures
        r == event_of(*update),
{
    match update {
        PoolUpdate::LiquidityEvent { pool_id, block, tx_index, log_index, event } => Some(
            StoredEvent {
                block: *block,
                tx_index: *tx_index,
                log_index: *log_index,
                pool_id: *pool_id,
                liquidity_event: *event,
            },
        ),
        _ => None,
    }
}

/// Get pools affected by events
pub fn get_affected_pools(updates: &Vec<PoolUpdate>) -> (r: PoolIdSet)
    ensures
        r@ == affected_pools(updates@),
{
    let mut pools: PoolIdSet = PoolIdSet::new();
    let mut i: usize = 0;
    while i < updates.len()
        invariant
            i <= updates.len(),
            pools@ == affected_pools(updates@.take(i as int)),
        decreases updates.len() - i,
    {
        assert(updates@.take(i + 1).drop_last() =~= updates@.take(i as int));
        match &updates[i] {
            PoolUpdate::SwapEvent { pool_id, .. } => {
                pools.insert(*pool_id);
            },
            PoolUpdate::LiquidityEvent { pool_id, .. } => {
                pools.insert(*pool_id);
            },
            PoolUpdate::UpdatedSlot0 { pool_id, .. } => {
                pools.insert(*pool_id);
            },
            PoolUpdate::PoolConfigured { pool_id, .. } => {
                pools.insert(*pool_id);
            },
            PoolUpdate::PoolRemoved { pool_id, .. } => {
                pools.insert(*pool_id);
            },
            PoolUpdate::FeeUpdate { pool_id, .. } => {
                pools.insert(*pool_id);
            },
            _ => {},
        }
        i = i + 1;
    }
    assert(updates@.take(i as int) =~= updates@);
    pools
}

/// What a reorganization comes to before the prices are queried again: the
/// updates so far and the pools whose prices are wanted.
#[derive(Debug)]
pub struct ReorgProgress {
    pub updates: Vec<PoolUpdate>,
    pub affected: Vec<PoolId>,
    pub from_block: u64,
    pub to_block: u64,
}

/// The updates of prices that were queried again.
pub open spec fn price_updates(prices: Seq<(PoolId, Slot0Data)>) -> Seq<PoolUpdate> {
    Seq::new(
        prices.len(),
        |i: int| PoolUpdate::UpdatedSlot0 { pool_id: prices[i].0, data: prices[i].1 },
    )
}

impl PoolUpdateProvider {
    /// Add event to history, maintaining the 10-block window
    fn add_to_history(&mut self, event: StoredEvent)
        ensures
            final(self)@ == (ProviderView {
                history: with_event(old(self)@.history, event, old(self)@.current_block),
                ..old(self)@
            }),
    {
        self.event_history.push_back(event);
        // Maintain exactly REORG_DETECTION_BLOCKS worth of history
        // Remove all events from blocks that are too old
        let cutoff_block: u64 = self.current_block.saturating_sub(REORG_DETECTION_BLOCKS - 1);
        self.event_history = keep_since(&self.event_history, cutoff_block);
    }

    /// Adds the liquidity events of the logs of a block to history.
    fn remember_logs(&mut self, logs: &Vec<Log>, block: u64)
        ensures
            final(self)@ == (ProviderView {
                history: history_after_logs(
                    old(self)@.history,
                    old(self)@.watched,
                    logs@,
                    block,
                    old(self)@.current_block,
                ),
                ..old(self)@
            }),
    {
        let mut i: usize = 0;
        while i < logs.len()
            invariant
                i <= logs.len(),
                self@ == (ProviderView {
                    history: history_after_logs(
                        old(self)@.history,
                        old(self)@.watched,
                        logs@.take(i as int),
                        block,
                        old(self)@.current_block,
                    ),
                    ..old(self)@
                }),
            decreases logs.len() - i,
        {
            assert(logs@.take(i + 1).drop_last() =~= logs@.take(i as int));
            if let Some(event) = self.stored_event(&logs[i], block) {
                self.add_to_history(event);
            }
            i = i + 1;
        }
        assert(logs@.take(i as int) =~= logs@);
    }

    /// Process events for a specific block
    /// The liquidity events of tracked pools go into history as soon as they
    /// were fetched, whatever becomes of the queries after. The first query
    /// that failed is the error. Without tracked pools there are no updates.
    pub fn process_block_events(&mut self, block_number: u64, fetched: BlockLogs) -> (r: Result<
        Vec<PoolUpdate>,
        PoolUpdateError,
    >)
        ensures
            final(self)@ == (ProviderView {
                history: history_after_block(old(self)@, block_number, fetched),
                ..old(self)@
            }),
            old(self)@.watched == Set::<PoolId>::empty() ==> (r matches Ok(u) && u@.len() == 0),
            old(self)@.watched != Set::<PoolId>::empty() ==> match (
                fetched.pool_logs,
                fetched.controller_logs,
                fetched.transactions,
            ) {
                (Ok(pool_logs), Ok(controller_logs), Ok(transactions)) => r matches Ok(u) && u@
                    == block_updates(
                    old(self)@,
                    block_number,
                    pool_logs.0@,
                    pool_logs.1@,
                    controller_logs@,
                    transactions@,
                ),
                (Err(e), _, _) => r == Err::<Vec<PoolUpdate>, PoolUpdateError>(e),
                (Ok(_), Err(e), _) => r == Err::<Vec<PoolUpdate>, PoolUpdateError>(e),
                (Ok(_), Ok(_), Err(e)) => r == Err::<Vec<PoolUpdate>, PoolUpdateError>(e),
            },
    {
        let mut updates: Vec<PoolUpdate> = Vec::new();
        // If no pools are tracked, return early
        if self.tracked_pools.is_empty() {
            return Ok(updates);
        }
        let (swap_logs, modify_logs) = match fetched.pool_logs {
            Ok(logs) => logs,
            Err(e) => {
                return Err(e);
            },
        };
        self.push_swaps(&swap_logs, Some(block_number), &mut updates);
        self.push_liquidity(&modify_logs, Some(block_number), &mut updates);
        self.remember_logs(&modify_logs, block_number);
        let controller_logs: Vec<Log> = match fetched.controller_logs {
            Ok(logs) => logs,
            Err(e) => {
                return Err(e);
            },
        };
        self.push_controller(&controller_logs, Some(block_number), &mut updates);
        let transactions: Vec<Transaction> = match fetched.transactions {
            Ok(transactions) => transactions,
            Err(e) => {
                return Err(e);
            },
        };
        self.push_transactions(&transactions, block_number, &mut updates);
        assert(updates@ =~= block_updates(
            old(self)@,
            block_number,
            swap_logs@,
            modify_logs@,
            controller_logs@,
            transactions@,
        ));
        Ok(updates)
    }

    /// The identifier that a pool goes by on chain, for which its price is
    /// queried.
    pub fn slot0_pool_id(&self, pool_id: &PoolId) -> (r: Option<PoolId>)
        ensures
            r == chain_id(self@.pool_registry, *pool_id),
    {
        match self.pool_registry.private_key_from_public(pool_id) {
            Some(id) => Some(id),
            None => if self.pool_registry.reverse_conversion_map.contains_key(pool_id) {
                Some(*pool_id)
            } else {
                None
            },
        }
    }

    /// Backfill events for missed blocks
    pub fn backfill_blocks(&self, chunks: &Vec<BackfillChunk>) -> (r: Vec<PoolUpdate>)
        requires
            forall|i: int|
                0 <= i < chunks@.len() ==> chunk_is_mined(self@.watched, #[trigger] chunks@[i]),
        ensures
            r@ == if self@.watched == Set::<PoolId>::empty() {
                Seq::empty()
            } else {
                all_chunk_updates(
                    self@.watched,
                    chunks@,
                    self@.controller_address,
                    self@.angstrom_address,
                    self@.known_pools,
                )
            },
    {
        let mut all_updates: Vec<PoolUpdate> = Vec::new();
        // If no pools are tracked, return early
        if self.tracked_pools.is_empty() {
            return all_updates;
        }
        let mut i: usize = 0;
        while i < chunks.len()
            invariant
                i <= chunks.len(),
                all_updates@ == all_chunk_updates(
                    self@.watched,
                    chunks@.take(i as int),
                    self@.controller_address,
                    self@.angstrom_address,
                    self@.known_pools,
                ),
            decreases chunks.len() - i,
        {
            assert(chunks@.take(i + 1).drop_last() =~= chunks@.take(i as int));
            self.push_chunk(&chunks[i], &mut all_updates);
            i = i + 1;
        }
        assert(chunks@.take(i as int) =~= chunks@);
        all_updates
    }

    /// Appends the updates of a range of blocks.
    fn push_chunk(&self, chunk: &BackfillChunk, updates: &mut Vec<PoolUpdate>)
        ensures
            final(updates)@ == old(updates)@ + chunk_updates(
                self@.watched,
                *chunk,
                self@.controller_address,
                self@.angstrom_address,
                self@.known_pools,
            ),
    {
        let ghost before = updates@;
        self.push_swaps(&chunk.swap_logs, None, updates);
        self.push_liquidity(&chunk.modify_logs, None, updates);
        self.push_controller(&chunk.controller_logs, None, updates);
        self.push_blocks(&chunk.blocks, updates);
        proof {
            concat_assoc(
                before,
                all_swap_updates(self@.watched, chunk.swap_logs@, None),
                all_liquidity_updates(self@.watched, chunk.modify_logs@, None),
                all_controller_updates(chunk.controller_logs@, None, self@.angstrom_address),
                all_block_updates(
                    chunk.blocks@,
                    self@.controller_address,
                    self@.known_pools,
                ),
            );
        }
    }

    /// Appends the updates of the transactions of blocks.
    fn push_blocks(&self, blocks: &Vec<(u64, Vec<Transaction>)>, updates: &mut Vec<PoolUpdate>)
        ensures
            final(updates)@ == old(updates)@ + all_block_updates(
                blocks@,
                self@.controller_address,
                self@.known_pools,
            ),
    {
        let mut i: usize = 0;
        assert(updates@ =~= old(updates)@ + all_block_updates(
            blocks@.take(0),
            self@.controller_address,
            self@.known_pools,
        ));
        while i < blocks.len()
            invariant
                i <= blocks.len(),
                updates@ == old(updates)@ + all_block_updates(
                    blocks@.take(i as int),
                    self@.controller_address,
                    self@.known_pools,
                ),
            decreases blocks.len() - i,
        {
            assert(blocks@.take(i + 1).drop_last() =~= blocks@.take(i as int));
            self.push_transactions(&blocks[i].1, blocks[i].0, updates);
            assert(updates@ =~= old(updates)@ + all_block_updates(
                blocks@.take(i + 1),
                self@.controller_address,
                self@.known_pools,
            ));
            i = i + 1;
        }
        assert(blocks@.take(i as int) =~= blocks@);
    }

    /// Get inverse liquidity events for reorg handling
    pub fn get_inverse_liquidity_events(&self, from_block: u64, to_block: u64) -> (r: Vec<
        PoolUpdate,
    >)
        requires
            can_invert(self@.history, from_block, to_block),
        ensures
            r@ == inverse_events(self@.history, from_block, to_block),
    {
        let mut out: Vec<PoolUpdate> = Vec::new();
        let ghost all = inverse_events(self@.history, from_block, to_block);
        let mut i: usize = self.event_history.len();
        assert(self@.history.take(i as int) =~= self@.history);
        assert(out@ + inverse_events(self@.history.take(i as int), from_block, to_block) =~= all);
        // Iterate through history in reverse order to process most recent first
        while i > 0
            invariant
                i <= self.event_history.len(),
                can_invert(self@.history, from_block, to_block),
                out@ + inverse_events(self@.history.take(i as int), from_block, to_block) == all,
            decreases i,
        {
            i = i - 1;
            let event: StoredEvent = self.event_history[i];
            proof {
                assert(self@.history.take(i + 1).drop_last() =~= self@.history.take(i as int));
                assert(self@.history.take(i + 1).last() == event);
            }
            if from_block <= event.block && event.block <= to_block {
                // Create inverse event by negating liquidity delta
                let delta: I256 = event.liquidity_event.liquidity_delta.neg();
                proof {
                    crate::words::i256_view_injective(
                        delta,
                        negation(event.liquidity_event.liquidity_delta),
                    );
                }
                let inverse_event: ModifyLiquidityEventData = ModifyLiquidityEventData {
                    sender: event.liquidity_event.sender,
                    tick_lower: event.liquidity_event.tick_lower,
                    tick_upper: event.liquidity_event.tick_upper,
                    liquidity_delta: delta,
                    salt: event.liquidity_event.salt,
                };
                let ghost before = out@;
                out.push(
                    PoolUpdate::LiquidityEvent {
                        pool_id: event.pool_id,
                        block: event.block,
                        tx_index: event.tx_index,
                        log_index: event.log_index,
                        event: inverse_event,
                    },
                );
                proof {
                    let rest = inverse_events(self@.history.take(i as int), from_block, to_block);
                    assert(before + (seq![inverse_of(event)] + rest) =~= before.push(
                        inverse_of(event),
                    ) + rest);
                }
            }
        }
        assert(self@.history.take(0).len() == 0);
        assert(out@ =~= all);
        out
    }

    /// The blocks that are fetched again after a reorganization.
    pub fn reorg_range(&self) -> (r: (u64, u64))
        ensures
            r == (history_cutoff(self@.current_block), self@.current_block),
    {
        (self.current_block.saturating_sub(REORG_DETECTION_BLOCKS - 1), self.current_block)
    }

    /// Whether every event that a reorganization would undo can be undone.
    pub fn can_handle_reorg(&self) -> (r: bool)
        ensures
            r == can_invert(
                self@.history,
                history_cutoff(self@.current_block),
                self@.current_block,
            ),
    {
        let (from_block, to_block) = self.reorg_range();
        let lowest: I256 = I256 {
            raw: crate::words::U256 { l0: 0, l1: 0, l2: 0, l3: 0x8000_0000_0000_0000 },
        };
        let mut i: usize = 0;
        while i < self.event_history.len()
            invariant
                i <= self.event_history.len(),
                lowest@ == -half_256(),
                forall|j: int|
                    0 <= j < i && from_block <= (#[trigger] self@.history[j]).block <= to_block
                        ==> self@.history[j].liquidity_event.liquidity_delta@ != -half_256(),
                from_block == history_cutoff(self@.current_block),
                to_block == self@.current_block,
            decreases self.event_history.len() - i,
        {
            let event: StoredEvent = self.event_history[i];
            proof {
                crate::words::i256_view_bound(event.liquidity_event.liquidity_delta);
            }
            if from_block <= event.block && event.block <= to_block && !lowest.lt(
                &event.liquidity_event.liquidity_delta,
            ) {
                assert(self@.history[i as int] == event);
                return false;
            }
            i = i + 1;
        }
        true
    }

    /// Handle a reorg event
    /// The liquidity events of the blocks in history are undone, and the events
    /// that were fetched again of these blocks come in their place, in the
    /// updates and in history. Where they could not be fetched, the events are
    /// undone all the same.
    pub fn handle_reorg(&mut self, fetched: Result<Vec<PoolUpdate>, PoolUpdateError>) -> (r:
        ReorgProgress)
        requires
            can_invert(
                old(self)@.history,
                history_cutoff(old(self)@.current_block),
                old(self)@.current_block,
            ),
        ensures
            ({
                let from_block = history_cutoff(old(self)@.current_block);
                let to_block = old(self)@.current_block;
                let inverse = inverse_events(old(self)@.history, from_block, to_block);
                let fresh = match fetched {
                    Ok(events) => events@,
                    Err(_) => Seq::<PoolUpdate>::empty(),
                };
                &&& r.from_block == from_block
                &&& r.to_block == to_block
                &&& r.updates@ == inverse + fresh
                &&& r.affected@.no_duplicates()
                &&& r.affected@.to_set() == if fetched is Ok {
                    affected_pools(inverse).union(affected_pools(fresh))
                } else {
                    Set::empty()
                }
                &&& final(self)@ == (ProviderView {
                    history: history_after_updates(
                        before_block(old(self)@.history, from_block),
                        fresh,
                        to_block,
                    ),
                    ..old(self)@
                })
            }),
    {
        let (reorg_start, current_block) = self.reorg_range();
        // 1. Get inverse liquidity events
        let mut updates: Vec<PoolUpdate> = self.get_inverse_liquidity_events(
            reorg_start,
            current_block,
        );
        let ghost inverse = updates@;
        // 2. Clear affected history
        self.event_history = keep_before(&self.event_history, reorg_start);
        let fresh_events: Vec<PoolUpdate> = match fetched {
            Ok(events) => events,
            Err(_) => {
                let affected: Vec<PoolId> = Vec::new();
                assert(affected@.to_set() =~= Set::<PoolId>::empty());
                assert(updates@ =~= inverse + Seq::<PoolUpdate>::empty());
                return ReorgProgress {
                    updates,
                    affected,
                    from_block: reorg_start,
                    to_block: current_block,
                };
            },
        };
        // Get affected pools from both inverse and fresh events
        let mut affected: PoolIdSet = get_affected_pools(&updates);
        let fresh_pools: Vec<PoolId> = get_affected_pools(&fresh_events).to_vec();
        let mut k: usize = 0;
        while k < fresh_pools.len()
            invariant
                k <= fresh_pools.len(),
                affected@ == affected_pools(inverse).union(fresh_pools@.take(k as int).to_set()),
            decreases fresh_pools.len() - k,
        {
            affected.insert(fresh_pools[k]);
            proof {
                let before = fresh_pools@.take(k as int);
                let after = fresh_pools@.take(k + 1);
                assert(after =~= before.push(fresh_pools@[k as int]));
                assert forall|id: PoolId| #[trigger] after.to_set().contains(id) == (
                before.to_set().contains(id) || id == fresh_pools@[k as int]) by {
                    if before.contains(id) {
                        let j = choose|j: int| 0 <= j < before.len() && before[j] == id;
                        assert(after[j] == id);
                    }
                    if after.contains(id) {
                        let j = choose|j: int| 0 <= j < after.len() && after[j] == id;
                        if j < k {
                            assert(before[j] == id);
                        }
                    }
                    assert(after[k as int] == fresh_pools@[k as int]);
                }
                assert(affected@ =~= affected_pools(inverse).union(after.to_set()));
            }
            k = k + 1;
        }
        assert(fresh_pools@.take(k as int) =~= fresh_pools@);
        // Add fresh events to history
        let ghost cleared = self@;
        let mut i: usize = 0;
        while i < fresh_events.len()
            invariant
                i <= fresh_events.len(),
                cleared.current_block == current_block,
                self@ == (ProviderView {
                    history: history_after_updates(
                        cleared.history,
                        fresh_events@.take(i as int),
                        current_block,
                    ),
                    ..cleared
                }),
            decreases fresh_events.len() - i,
        {
            assert(fresh_events@.take(i + 1).drop_last() =~= fresh_events@.take(i as int));
            if let Some(stored_event) = update_to_stored_event(&fresh_events[i]) {
                self.add_to_history(stored_event);
            }
            i = i + 1;
        }
        assert(fresh_events@.take(i as int) =~= fresh_events@);
        let mut fresh: Vec<PoolUpdate> = fresh_events;
        updates.append(&mut fresh);
        assert(updates@ =~= inverse + fresh_events@);
        ReorgProgress {
            updates,
            affected: affected.to_vec(),
            from_block: reorg_start,
            to_block: current_block,
        }
    }

    /// Ends a reorganization: the prices that were queried again come after the
    /// events, and the reorganization itself comes last.
    pub fn finish_reorg(progress: ReorgProgress, prices: &Vec<(PoolId, Slot0Data)>) -> (r: Vec<
        PoolUpdate,
    >)
        ensures
            r@ == (progress.updates@ + price_updates(prices@)).push(
                PoolUpdate::Reorg {
                    from_block: progress.from_block,
                    to_block: progress.to_block,
                },
            ),
    {
        let ghost before = progress.updates@;
        let ghost all = price_updates(prices@);
        let mut updates: Vec<PoolUpdate> = progress.updates;
        let mut i: usize = 0;
        assert(before + all.take(0) =~= before);
        while i < prices.len()
            invariant
                i <= prices.len(),
                all == price_updates(prices@),
                updates@ == before + all.take(i as int),
            decreases prices.len() - i,
        {
            updates.push(PoolUpdate::UpdatedSlot0 { pool_id: prices[i].0, data: prices[i].1 });
            i = i + 1;
            assert(updates@ =~= before + all.take(i as int));
        }
        assert(all.take(i as int) =~= all);
        updates.push(
            PoolUpdate::Reorg { from_block: progress.from_block, to_block: progress.to_block },
        );
        updates
    }

    /// What a new block means: a reorganization if it has the number of the
    /// current one, and nothing if it is an old one.
    pub fn on_new_block(&self, block_number: u64) -> (r: BlockStep)
        ensures
            r == if block_number == self@.current_block {
                BlockStep::Reorg
            } else if block_number > self@.current_block {
                BlockStep::Advance
            } else {
                BlockStep::Ignore
            },
    {
        if block_number == self.current_block {
            // Reorg detected!
            BlockStep::Reorg
        } else if block_number > self.current_block {
            // Normal block progression
            BlockStep::Advance
        } else {
            // ignore it (old block)
            BlockStep::Ignore
        }
    }

    /// Goes on to a new block: its updates are those of its events, or none if
    /// a query failed. History is kept for the window of the new block.
    pub fn advance(&mut self, block_number: u64, fetched: BlockLogs) -> (r: Vec<PoolUpdate>)
        ensures
            final(self)@ == (ProviderView {
                history: since_block(
                    history_after_block(old(self)@, block_number, fetched),
                    history_cutoff(block_number),
                ),
                current_block: block_number,
                ..old(self)@
            }),
            old(self)@.watched == Set::<PoolId>::empty() ==> r@.len() == 0,
            old(self)@.watched != Set::<PoolId>::empty() ==> match (
                fetched.pool_logs,
                fetched.controller_logs,
                fetched.transactions,
            ) {
                (Ok(pool_logs), Ok(controller_logs), Ok(transactions)) => r@ == block_updates(
                    old(self)@,
                    block_number,
                    pool_logs.0@,
                    pool_logs.1@,
                    controller_logs@,
                    transactions@,
                ),
                _ => r@.len() == 0,
            },
    {
        let updates: Vec<PoolUpdate> = match self.process_block_events(block_number, fetched) {
            Ok(updates) => updates,
            Err(_) => Vec::new(),
        };
        // Update current block
        self.current_block = block_number;
        // Clean up old events from history to maintain exactly 10 blocks
        let cutoff_block: u64 = block_number.saturating_sub(REORG_DETECTION_BLOCKS - 1);
        self.event_history = keep_since(&self.event_history, cutoff_block);
        updates
    }
}

} // verus!
