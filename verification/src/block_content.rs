//! What the updates of a block tell of the logs and the transactions that were
//! fetched of it: which update each of them brings, and how many there are.
use vstd::multiset::Multiset;
use vstd::prelude::*;

use crate::events::{
    batch_updates_of, modify_liquidity_of, pool_configured_of, pool_fees_configured_of,
    pool_removed_of, swap_of, BatchUpdate, Log, Transaction,
};
use crate::pool_key::{pool_id_of, PoolKey};
use crate::pool_registry::{pools_of_a_pair_trade_it, trades};
use crate::pool_update_provider::{
    all_block_updates, all_chunk_updates, all_controller_updates, all_liquidity_updates,
    all_swap_updates, all_transaction_updates, block_for, block_updates, chunk_is_mined,
    chunk_updates, controller_updates, fee_change, fee_changes, liquidity_updates, swap_updates,
    transaction_updates, BackfillChunk, ProviderView,
};
use crate::updates::PoolUpdate;
use crate::words::{Address, PoolId};

verus! {

/// Appending in turn is appending together.
proof fn appending_in_turn<T>(a: Seq<T>, b: Seq<T>, c: Seq<T>)
    ensures
        (a + b) + c == a + (b + c),
        a + Seq::empty() == a,
        Seq::empty() + a == a,
{
    assert((a + b) + c =~= a + (b + c));
    assert(a + Seq::empty() =~= a);
    assert(Seq::empty() + a =~= a);
}

/// How many known pools the entries of a call name together: for each entry those
/// that trade its two assets.
pub open spec fn pools_named(known: Seq<(PoolId, PoolKey)>, entries: Seq<BatchUpdate>) -> nat
    decreases entries.len(),
{
    if entries.len() == 0 {
        0
    } else {
        let first = entries[0];
        known.filter(|e: (PoolId, PoolKey)| trades(e.1, first.asset_a, first.asset_b)).len()
            + pools_named(known, entries.skip(1))
    }
}

/// Whether an update gives the three fees of an entry to a known pool of its two
/// assets.
pub open spec fn gives_fees(
    update: PoolUpdate,
    block: u64,
    known: Seq<(PoolId, PoolKey)>,
    entry: BatchUpdate,
) -> bool {
    exists|i: int|
        0 <= i < known.len() && trades((#[trigger] known[i]).1, entry.asset_a, entry.asset_b)
            && update == (PoolUpdate::FeeUpdate {
            pool_id: known[i].0,
            block,
            bundle_fee: entry.bundle_fee,
            swap_fee: entry.unlocked_fee,
            protocol_fee: entry.protocol_unlocked_fee,
        })
}

/// What one entry of a call brings: for each known pool of its two assets an update
/// with the three fees, and nothing else.
proof fn one_entry_brings_its_updates(
    entry: BatchUpdate,
    block: u64,
    known: Seq<(PoolId, PoolKey)>,
)
    ensures
        fee_change(entry, block, known).len() == known.filter(
            |e: (PoolId, PoolKey)| trades(e.1, entry.asset_a, entry.asset_b),
        ).len(),
        forall|update: PoolUpdate| #[trigger]
            fee_change(entry, block, known).contains(update) <==> gives_fees(
                update,
                block,
                known,
                entry,
            ),
{
    let of_pair = |e: (PoolId, PoolKey)| trades(e.1, entry.asset_a, entry.asset_b);
    let named = known.filter(of_pair);
    let updates = fee_change(entry, block, known);
    pools_of_a_pair_trade_it(known, entry.asset_a, entry.asset_b);
    assert(updates.len() == named.len());
    assert forall|update: PoolUpdate| #[trigger] updates.contains(update) <==> gives_fees(
        update,
        block,
        known,
        entry,
    ) by {
        if updates.contains(update) {
            let k = choose|k: int| 0 <= k < updates.len() && updates[k] == update;
            known.lemma_filter_pred(of_pair, k);
            assert(named.contains(named[k]));
            known.lemma_filter_contains_rev(of_pair, named[k]);
            let i = choose|i: int| 0 <= i < known.len() && known[i] == named[k];
            assert(trades(known[i].1, entry.asset_a, entry.asset_b));
        }
        if gives_fees(update, block, known, entry) {
            let i = choose|i: int|
                0 <= i < known.len() && trades(
                    (#[trigger] known[i]).1,
                    entry.asset_a,
                    entry.asset_b,
                ) && update == (PoolUpdate::FeeUpdate {
                    pool_id: known[i].0,
                    block,
                    bundle_fee: entry.bundle_fee,
                    swap_fee: entry.unlocked_fee,
                    protocol_fee: entry.protocol_unlocked_fee,
                });
            known.lemma_filter_contains(of_pair, i);
            let k = choose|k: int| 0 <= k < named.len() && named[k] == known[i];
            assert(updates[k] == update);
        }
    }
}

/// The changes of some entries and of others after them are those of all.
proof fn fee_changes_concat(
    a: Seq<BatchUpdate>,
    b: Seq<BatchUpdate>,
    block: u64,
    known: Seq<(PoolId, PoolKey)>,
)
    ensures
        fee_changes(a + b, block, known) == fee_changes(a, block, known) + fee_changes(
            b,
            block,
            known,
        ),
    decreases b.len(),
{
    if b.len() == 0 {
        assert(a + b =~= a);
        appending_in_turn(fee_changes(a, block, known), Seq::<PoolUpdate>::empty(), Seq::empty());
    } else {
        let front = b.drop_last();
        assert((a + b).drop_last() =~= a + front);
        assert((a + b).last() == b.last());
        fee_changes_concat(a, front, block, known);
        appending_in_turn(
            fee_changes(a, block, known),
            fee_changes(front, block, known),
            fee_change(b.last(), block, known),
        );
    }
}

/// What the entries of a call bring together.
proof fn entries_bring_their_updates(
    entries: Seq<BatchUpdate>,
    block: u64,
    known: Seq<(PoolId, PoolKey)>,
)
    ensures
        fee_changes(entries, block, known).len() == pools_named(known, entries),
        forall|update: PoolUpdate| #[trigger]
            fee_changes(entries, block, known).contains(update) <==> exists|j: int|
                0 <= j < entries.len() && gives_fees(update, block, known, #[trigger] entries[j]),
    decreases entries.len(),
{
    let all = fee_changes(entries, block, known);
    if entries.len() > 0 {
        let first = entries[0];
        let rest = entries.skip(1);
        let here = fee_change(first, block, known);
        let there = fee_changes(rest, block, known);
        let only = seq![first];
        assert(entries =~= only + rest);
        fee_changes_concat(only, rest, block, known);
        assert(only.drop_last() =~= Seq::<BatchUpdate>::empty());
        assert(only.last() == first);
        let none = fee_changes(Seq::empty(), block, known);
        assert(none.len() == 0);
        assert(none + here =~= here);
        assert(all == here + there);
        entries_bring_their_updates(rest, block, known);
        one_entry_brings_its_updates(first, block, known);
        assert forall|update: PoolUpdate| #[trigger] all.contains(update) <==> exists|j: int|
            0 <= j < entries.len() && gives_fees(
                update,
                block,
                known,
                #[trigger] entries[j],
            ) by {
            if all.contains(update) {
                let k = choose|k: int| 0 <= k < all.len() && all[k] == update;
                if k < here.len() {
                    assert(here[k] == update);
                    assert(here.contains(update));
                    assert(gives_fees(update, block, known, entries[0]));
                } else {
                    assert(there[k - here.len()] == update);
                    assert(there.contains(update));
                    let j = choose|j: int|
                        0 <= j < rest.len() && gives_fees(
                            update,
                            block,
                            known,
                            #[trigger] rest[j],
                        );
                    assert(entries[j + 1] == rest[j]);
                }
            }
            if exists|j: int|
                0 <= j < entries.len() && gives_fees(
                    update,
                    block,
                    known,
                    #[trigger] entries[j],
                ) {
                let j = choose|j: int|
                    0 <= j < entries.len() && gives_fees(
                        update,
                        block,
                        known,
                        #[trigger] entries[j],
                    );
                if j == 0 {
                    assert(here.contains(update));
                    let k = choose|k: int| 0 <= k < here.len() && here[k] == update;
                    assert(all[k] == update);
                } else {
                    assert(rest[j - 1] == entries[j]);
                    assert(there.contains(update));
                    let k = choose|k: int| 0 <= k < there.len() && there[k] == update;
                    assert(all[here.len() + k] == update);
                }
            }
        }
    }
}

/// What a call that changes fees brings. For every entry of the call and every known
/// pool of its two assets there is an update that gives the pool the three fees of
/// the entry; every update is such a one; and there are as many as the entries name
/// pools. Another transaction brings nothing.
pub proof fn fee_updates_of_a_call(
    transaction: Transaction,
    block: u64,
    controller: Address,
    known: Seq<(PoolId, PoolKey)>,
)
    ensures
        ({
            let updates = transaction_updates(transaction, block, controller, known);
            &&& transaction.to == Some(controller) ==> (batch_updates_of(
                transaction.input@,
            ) matches Some(entries) ==> {
                &&& forall|j: int, i: int|
                    0 <= j < entries.len() && 0 <= i < known.len() && trades(
                        (#[trigger] known[i]).1,
                        (#[trigger] entries[j]).asset_a,
                        entries[j].asset_b,
                    ) ==> updates.contains(
                        PoolUpdate::FeeUpdate {
                            pool_id: known[i].0,
                            block,
                            bundle_fee: entries[j].bundle_fee,
                            swap_fee: entries[j].unlocked_fee,
                            protocol_fee: entries[j].protocol_unlocked_fee,
                        },
                    )
                &&& forall|update: PoolUpdate| #[trigger]
                    updates.contains(update) ==> exists|j: int|
                        0 <= j < entries.len() && gives_fees(
                            update,
                            block,
                            known,
                            #[trigger] entries[j],
                        )
                &&& updates.len() == pools_named(known, entries)
            })
            &&& transaction.to != Some(controller) || batch_updates_of(transaction.input@) is None
                ==> updates.len() == 0
        }),
{
    if let Some(entries) = batch_updates_of(transaction.input@) {
        if transaction.to == Some(controller) {
            let updates = transaction_updates(transaction, block, controller, known);
            assert(updates == fee_changes(entries, block, known));
            entries_bring_their_updates(entries, block, known);
            assert forall|j: int, i: int|
                0 <= j < entries.len() && 0 <= i < known.len() && trades(
                    (#[trigger] known[i]).1,
                    (#[trigger] entries[j]).asset_a,
                    entries[j].asset_b,
                ) implies updates.contains(
                PoolUpdate::FeeUpdate {
                    pool_id: known[i].0,
                    block,
                    bundle_fee: entries[j].bundle_fee,
                    swap_fee: entries[j].unlocked_fee,
                    protocol_fee: entries[j].protocol_unlocked_fee,
                },
            ) by {
                let update = PoolUpdate::FeeUpdate {
                    pool_id: known[i].0,
                    block,
                    bundle_fee: entries[j].bundle_fee,
                    swap_fee: entries[j].unlocked_fee,
                    protocol_fee: entries[j].protocol_unlocked_fee,
                };
                assert(gives_fees(update, block, known, entries[j]));
            }
        }
    }
}

/// The entries of a call take effect in their order: where the entries of one call
/// are those of another and more behind them, it brings the updates of the other and
/// more behind them. Of two entries of the same pool the later one is applied last.
pub proof fn entries_take_effect_in_turn(
    first: Transaction,
    both: Transaction,
    block: u64,
    controller: Address,
    known: Seq<(PoolId, PoolKey)>,
)
    requires
        first.to == Some(controller),
        both.to == Some(controller),
        batch_updates_of(first.input@) is Some,
        batch_updates_of(both.input@) is Some,
        batch_updates_of(first.input@)->0.is_prefix_of(batch_updates_of(both.input@)->0),
    ensures
        transaction_updates(first, block, controller, known).is_prefix_of(
            transaction_updates(both, block, controller, known),
        ),
{
    let a = batch_updates_of(first.input@)->0;
    let c = batch_updates_of(both.input@)->0;
    let b = c.skip(a.len() as int);
    assert(c =~= a + b);
    fee_changes_concat(a, b, block, known);
}

/// More swap logs bring more updates.
proof fn swaps_concat(watched: Set<PoolId>, a: Seq<Log>, b: Seq<Log>, block: Option<u64>)
    ensures
        all_swap_updates(watched, a + b, block) == all_swap_updates(watched, a, block)
            + all_swap_updates(watched, b, block),
    decreases b.len(),
{
    if b.len() == 0 {
        assert(a + b =~= a);
        appending_in_turn(
            all_swap_updates(watched, a, block),
            Seq::<PoolUpdate>::empty(),
            Seq::empty(),
        );
    } else {
        let front = b.drop_last();
        assert((a + b).drop_last() =~= a + front);
        assert((a + b).last() == b.last());
        swaps_concat(watched, a, front, block);
        appending_in_turn(
            all_swap_updates(watched, a, block),
            all_swap_updates(watched, front, block),
            swap_updates(watched, b.last(), block_for(b.last(), block)),
        );
    }
}

/// More liquidity logs bring more updates.
proof fn liquidity_concat(watched: Set<PoolId>, a: Seq<Log>, b: Seq<Log>, block: Option<u64>)
    ensures
        all_liquidity_updates(watched, a + b, block) == all_liquidity_updates(watched, a, block)
            + all_liquidity_updates(watched, b, block),
    decreases b.len(),
{
    if b.len() == 0 {
        assert(a + b =~= a);
        appending_in_turn(
            all_liquidity_updates(watched, a, block),
            Seq::<PoolUpdate>::empty(),
            Seq::empty(),
        );
    } else {
        let front = b.drop_last();
        assert((a + b).drop_last() =~= a + front);
        assert((a + b).last() == b.last());
        liquidity_concat(watched, a, front, block);
        appending_in_turn(
            all_liquidity_updates(watched, a, block),
            all_liquidity_updates(watched, front, block),
            liquidity_updates(watched, b.last(), block_for(b.last(), block)),
        );
    }
}

/// More controller logs bring more updates.
proof fn controller_concat(a: Seq<Log>, b: Seq<Log>, block: Option<u64>, angstrom: Address)
    ensures
        all_controller_updates(a + b, block, angstrom) == all_controller_updates(
            a,
            block,
            angstrom,
        ) + all_controller_updates(b, block, angstrom),
    decreases b.len(),
{
    if b.len() == 0 {
        assert(a + b =~= a);
        appending_in_turn(
            all_controller_updates(a, block, angstrom),
            Seq::<PoolUpdate>::empty(),
            Seq::empty(),
        );
    } else {
        let front = b.drop_last();
        assert((a + b).drop_last() =~= a + front);
        assert((a + b).last() == b.last());
        controller_concat(a, front, block, angstrom);
        appending_in_turn(
            all_controller_updates(a, block, angstrom),
            all_controller_updates(front, block, angstrom),
            controller_updates(b.last(), block_for(b.last(), block), angstrom),
        );
    }
}

/// More transactions bring more updates.
proof fn transactions_concat(
    a: Seq<Transaction>,
    b: Seq<Transaction>,
    block: u64,
    controller: Address,
    known: Seq<(PoolId, PoolKey)>,
)
    ensures
        all_transaction_updates(a + b, block, controller, known) == all_transaction_updates(
            a,
            block,
            controller,
            known,
        ) + all_transaction_updates(b, block, controller, known),
    decreases b.len(),
{
    if b.len() == 0 {
        assert(a + b =~= a);
        appending_in_turn(
            all_transaction_updates(a, block, controller, known),
            Seq::<PoolUpdate>::empty(),
            Seq::empty(),
        );
    } else {
        let front = b.drop_last();
        assert((a + b).drop_last() =~= a + front);
        assert((a + b).last() == b.last());
        transactions_concat(a, front, block, controller, known);
        appending_in_turn(
            all_transaction_updates(a, block, controller, known),
            all_transaction_updates(front, block, controller, known),
            transaction_updates(b.last(), block, controller, known),
        );
    }
}

/// The updates that the swap logs of a block bring by themselves.
pub open spec fn of_swap_logs(view: ProviderView, block: u64, logs: Seq<Log>) -> Seq<PoolUpdate> {
    block_updates(view, block, logs, Seq::empty(), Seq::empty(), Seq::empty())
}

/// The updates that the liquidity logs of a block bring by themselves.
pub open spec fn of_liquidity_logs(
    view: ProviderView,
    block: u64,
    logs: Seq<Log>,
) -> Seq<PoolUpdate> {
    block_updates(view, block, Seq::empty(), logs, Seq::empty(), Seq::empty())
}

/// The updates that the logs of the controller bring by themselves.
pub open spec fn of_controller_logs(
    view: ProviderView,
    block: u64,
    logs: Seq<Log>,
) -> Seq<PoolUpdate> {
    block_updates(view, block, Seq::empty(), Seq::empty(), logs, Seq::empty())
}

/// The updates that the transactions of a block bring by themselves.
pub open spec fn of_transactions(
    view: ProviderView,
    block: u64,
    transactions: Seq<Transaction>,
) -> Seq<PoolUpdate> {
    block_updates(view, block, Seq::empty(), Seq::empty(), Seq::empty(), transactions)
}

/// The updates of a block are those of its swap logs, then those of its liquidity
/// logs, of the controller's logs and of its transactions, each as if nothing else
/// had been in the block.
pub proof fn kinds_of_logs_come_in_turn(
    view: ProviderView,
    block: u64,
    swaps: Seq<Log>,
    liquidity: Seq<Log>,
    controller: Seq<Log>,
    transactions: Seq<Transaction>,
)
    ensures
        block_updates(view, block, swaps, liquidity, controller, transactions) == of_swap_logs(
            view,
            block,
            swaps,
        ) + of_liquidity_logs(view, block, liquidity) + of_controller_logs(view, block, controller)
            + of_transactions(view, block, transactions),
{
    assert(block_updates(view, block, swaps, liquidity, controller, transactions) =~= of_swap_logs(
        view,
        block,
        swaps,
    ) + of_liquidity_logs(view, block, liquidity) + of_controller_logs(view, block, controller)
        + of_transactions(view, block, transactions));
}

/// Of each kind, every log and every transaction brings its updates whatever comes
/// before or after it, and in the order in which it comes: the updates of some and of
/// others after them are those of all.
pub proof fn each_log_brings_its_updates(
    view: ProviderView,
    block: u64,
    a: Seq<Log>,
    b: Seq<Log>,
    first: Seq<Transaction>,
    more: Seq<Transaction>,
)
    ensures
        of_swap_logs(view, block, a + b) == of_swap_logs(view, block, a) + of_swap_logs(
            view,
            block,
            b,
        ),
        of_liquidity_logs(view, block, a + b) == of_liquidity_logs(view, block, a)
            + of_liquidity_logs(view, block, b),
        of_controller_logs(view, block, a + b) == of_controller_logs(view, block, a)
            + of_controller_logs(view, block, b),
        of_transactions(view, block, first + more) == of_transactions(view, block, first)
            + of_transactions(view, block, more),
{
    swaps_concat(view.watched, a, b, Some(block));
    liquidity_concat(view.watched, a, b, Some(block));
    controller_concat(a, b, Some(block), view.angstrom_address);
    transactions_concat(first, more, block, view.controller_address, view.known_pools);
    assert(of_swap_logs(view, block, a + b) =~= of_swap_logs(view, block, a) + of_swap_logs(
        view,
        block,
        b,
    ));
    assert(of_liquidity_logs(view, block, a + b) =~= of_liquidity_logs(view, block, a)
        + of_liquidity_logs(view, block, b));
    assert(of_controller_logs(view, block, a + b) =~= of_controller_logs(view, block, a)
        + of_controller_logs(view, block, b));
    assert(of_transactions(view, block, first + more) =~= of_transactions(view, block, first)
        + of_transactions(view, block, more));
}

/// What a single log of the pool manager brings. A swap across a watched pool brings
/// one update with that swap, a change of its liquidity one with that change, both
/// with the block and the place of the log in it; any other log brings nothing.
pub proof fn pool_log_brings_its_event(view: ProviderView, block: u64, log: Log)
    ensures
        ({
            let swap = of_swap_logs(view, block, seq![log]);
            &&& swap.len() == 1 <==> (swap_of(log) matches Some(found) && view.watched.contains(
                found.0,
            ))
            &&& swap.len() == 0 || swap.len() == 1
            &&& swap.len() == 1 ==> (swap[0] matches PoolUpdate::SwapEvent {
                pool_id,
                block: at,
                tx_index,
                log_index,
                event,
            } && swap_of(log) == Some((pool_id, event)) && at == block && (
            log.transaction_index == Some(tx_index) || (log.transaction_index is None && tx_index
                == 0)) && (log.log_index == Some(log_index) || (log.log_index is None && log_index
                == 0)))
        }),
        ({
            let change = of_liquidity_logs(view, block, seq![log]);
            &&& change.len() == 1 <==> (modify_liquidity_of(log) matches Some(found)
                && view.watched.contains(found.0))
            &&& change.len() == 0 || change.len() == 1
            &&& change.len() == 1 ==> (change[0] matches PoolUpdate::LiquidityEvent {
                pool_id,
                block: at,
                tx_index,
                log_index,
                event,
            } && modify_liquidity_of(log) == Some((pool_id, event)) && at == block && (
            log.transaction_index == Some(tx_index) || (log.transaction_index is None && tx_index
                == 0)) && (log.log_index == Some(log_index) || (log.log_index is None && log_index
                == 0)))
        }),
{
    assert(seq![log].drop_last() =~= Seq::<Log>::empty());
    assert(seq![log].last() == log);
    let empty = Seq::<Log>::empty();
    assert(all_swap_updates(view.watched, empty, Some(block)).len() == 0);
    assert(all_liquidity_updates(view.watched, empty, Some(block)).len() == 0);
    assert(all_controller_updates(empty, Some(block), view.angstrom_address).len() == 0);
}

/// What a single log of the controller brings. A pool that it configured, in either
/// form of the event, brings one update with the key of the pool, its identifier and
/// its fees, and a pool that it removed one with the identifier; a log that is
/// neither brings nothing. The hooks of a pool are those of this controller.
pub proof fn controller_log_brings_its_pool(view: ProviderView, block: u64, log: Log)
    ensures
        ({
            let updates = of_controller_logs(view, block, seq![log]);
            &&& pool_configured_of(log) matches Some(event) ==> {
                &&& updates.len() == 1
                &&& updates[0] matches PoolUpdate::PoolConfigured {
                    pool_key,
                    pool_id,
                    block: at,
                    bundle_fee,
                    swap_fee,
                    protocol_fee,
                    tick_spacing,
                } && {
                    &&& at == block
                    &&& pool_id == pool_id_of(pool_key)
                    &&& pool_key.currency0 == event.asset0 && pool_key.currency1 == event.asset1
                    &&& pool_key.fee == event.bundle_fee && bundle_fee == event.bundle_fee
                    &&& pool_key.tick_spacing == event.tick_spacing && tick_spacing
                        == event.tick_spacing
                    &&& pool_key.hooks == view.angstrom_address
                    &&& swap_fee == event.fee_in_e6
                    &&& protocol_fee == 500
                }
            }
            &&& pool_configured_of(log) is None ==> (pool_fees_configured_of(log) matches Some(
                event,
            ) ==> {
                &&& updates.len() == 1
                &&& updates[0] matches PoolUpdate::PoolConfigured {
                    pool_key,
                    pool_id,
                    block: at,
                    bundle_fee,
                    swap_fee,
                    protocol_fee,
                    tick_spacing,
                } && {
                    &&& at == block
                    &&& pool_id == pool_id_of(pool_key)
                    &&& pool_key.currency0 == event.asset0 && pool_key.currency1 == event.asset1
                    &&& pool_key.fee == event.bundle_fee && bundle_fee == event.bundle_fee
                    &&& pool_key.tick_spacing == event.tick_spacing && tick_spacing
                        == event.tick_spacing
                    &&& pool_key.hooks == view.angstrom_address
                    &&& swap_fee == event.unlocked_fee
                    &&& protocol_fee == event.protocol_unlocked_fee
                }
            })
            &&& pool_removed_of(log) matches Some(event) ==> {
                &&& updates.len() == 1
                &&& updates[0] matches PoolUpdate::PoolRemoved { pool_id, block: at } && {
                    &&& at == block
                    &&& pool_id == pool_id_of(
                        PoolKey {
                            currency0: event.asset0,
                            currency1: event.asset1,
                            fee: event.fee_in_e6,
                            tick_spacing: event.tick_spacing,
                            hooks: view.angstrom_address,
                        },
                    )
                }
            }
            &&& pool_configured_of(log) is None && pool_fees_configured_of(log) is None
                && pool_removed_of(log) is None ==> updates.len() == 0
        }),
{
    assert(seq![log].drop_last() =~= Seq::<Log>::empty());
    assert(seq![log].last() == log);
    let empty = Seq::<Log>::empty();
    assert(all_swap_updates(view.watched, empty, Some(block)).len() == 0);
    assert(all_liquidity_updates(view.watched, empty, Some(block)).len() == 0);
    assert(all_controller_updates(empty, Some(block), view.angstrom_address).len() == 0);
}

/// A transaction brings in its block what it brings by itself.
pub proof fn transaction_brings_its_fees(view: ProviderView, block: u64, transaction: Transaction)
    ensures
        of_transactions(view, block, seq![transaction]) == transaction_updates(
            transaction,
            block,
            view.controller_address,
            view.known_pools,
        ),
{
    let only = seq![transaction];
    let none = Seq::<PoolUpdate>::empty();
    assert(only.drop_last() =~= Seq::<Transaction>::empty());
    assert(only.last() == transaction);
    let updates = transaction_updates(
        transaction,
        block,
        view.controller_address,
        view.known_pools,
    );
    appending_in_turn(updates, none, none);
    assert(all_transaction_updates(
        Seq::empty(),
        block,
        view.controller_address,
        view.known_pools,
    ) == none);
    assert(all_transaction_updates(only, block, view.controller_address, view.known_pools)
        == none + updates);
    assert(none + none + none =~= none);
}

/// Logs that all say which block they are of bring the updates of that block.
proof fn logs_of_their_block(
    watched: Set<PoolId>,
    logs: Seq<Log>,
    block: u64,
    angstrom: Address,
)
    requires
        forall|i: int| 0 <= i < logs.len() ==> (#[trigger] logs[i]).block_number == Some(block),
    ensures
        all_swap_updates(watched, logs, None) == all_swap_updates(watched, logs, Some(block)),
        all_liquidity_updates(watched, logs, None) == all_liquidity_updates(
            watched,
            logs,
            Some(block),
        ),
        all_controller_updates(logs, None, angstrom) == all_controller_updates(
            logs,
            Some(block),
            angstrom,
        ),
    decreases logs.len(),
{
    if logs.len() > 0 {
        assert(logs[logs.len() - 1].block_number == Some(block));
        let front = logs.drop_last();
        assert forall|i: int| 0 <= i < front.len() implies (#[trigger] front[i]).block_number
            == Some(block) by {
            assert(front[i] == logs[i]);
        }
        logs_of_their_block(watched, front, block, angstrom);
    }
}

/// A block that is fetched again brings the updates that it brings when it is
/// followed: the same of the same logs and transactions, in the same order.
pub proof fn block_fetched_again(view: ProviderView, block: u64, chunk: BackfillChunk)
    requires
        forall|i: int|
            0 <= i < chunk.swap_logs@.len() ==> (#[trigger] chunk.swap_logs@[i]).block_number
                == Some(block),
        forall|i: int|
            0 <= i < chunk.modify_logs@.len() ==> (#[trigger] chunk.modify_logs@[i]).block_number
                == Some(block),
        forall|i: int|
            0 <= i < chunk.controller_logs@.len() ==> (
            #[trigger] chunk.controller_logs@[i]).block_number == Some(block),
        chunk.blocks@.len() == 1,
        chunk.blocks@[0].0 == block,
    ensures
        all_chunk_updates(
            view.watched,
            seq![chunk],
            view.controller_address,
            view.angstrom_address,
            view.known_pools,
        ) == block_updates(
            view,
            block,
            chunk.swap_logs@,
            chunk.modify_logs@,
            chunk.controller_logs@,
            chunk.blocks@[0].1@,
        ),
{
    logs_of_their_block(view.watched, chunk.swap_logs@, block, view.angstrom_address);
    logs_of_their_block(view.watched, chunk.modify_logs@, block, view.angstrom_address);
    logs_of_their_block(view.watched, chunk.controller_logs@, block, view.angstrom_address);
    let only = seq![chunk];
    let none = Seq::<PoolUpdate>::empty();
    let (c, k) = (view.controller_address, view.known_pools);
    assert(only.drop_last() =~= Seq::<BackfillChunk>::empty());
    assert(only.last() == chunk);
    assert(chunk.blocks@.drop_last() =~= Seq::<(u64, Vec<Transaction>)>::empty());
    assert(all_block_updates(Seq::empty(), c, k) == none);
    assert(all_chunk_updates(view.watched, Seq::empty(), c, view.angstrom_address, k) == none);
    appending_in_turn(
        all_transaction_updates(chunk.blocks@[0].1@, block, c, k),
        none,
        none,
    );
    appending_in_turn(
        chunk_updates(view.watched, chunk, c, view.angstrom_address, k),
        none,
        none,
    );
}

/// Every range of blocks that is fetched again brings its updates, in turn: those of
/// some ranges and of others after them are those of all.
pub proof fn each_range_brings_its_updates(
    view: ProviderView,
    a: Seq<BackfillChunk>,
    b: Seq<BackfillChunk>,
)
    ensures
        all_chunk_updates(
            view.watched,
            a + b,
            view.controller_address,
            view.angstrom_address,
            view.known_pools,
        ) == all_chunk_updates(
            view.watched,
            a,
            view.controller_address,
            view.angstrom_address,
            view.known_pools,
        ) + all_chunk_updates(
            view.watched,
            b,
            view.controller_address,
            view.angstrom_address,
            view.known_pools,
        ),
    decreases b.len(),
{
    let (w, c, g, k) = (
        view.watched,
        view.controller_address,
        view.angstrom_address,
        view.known_pools,
    );
    if b.len() == 0 {
        assert(a + b =~= a);
        appending_in_turn(
            all_chunk_updates(w, a, c, g, k),
            Seq::<PoolUpdate>::empty(),
            Seq::empty(),
        );
    } else {
        let front = b.drop_last();
        assert((a + b).drop_last() =~= a + front);
        assert((a + b).last() == b.last());
        each_range_brings_its_updates(view, a, front);
        appending_in_turn(
            all_chunk_updates(w, a, c, g, k),
            all_chunk_updates(w, front, c, g, k),
            chunk_updates(w, b.last(), c, g, k),
        );
    }
}

/// Blocks can be fetched again wherever each of their logs says which block it is of and
/// where in it it stands.
pub proof fn mined_logs_can_be_fetched_again(watched: Set<PoolId>, chunk: BackfillChunk)
    requires
        forall|i: int|
            0 <= i < chunk.swap_logs@.len() ==> (#[trigger] chunk.swap_logs@[i]).block_number
                is Some && chunk.swap_logs@[i].transaction_index is Some
                && chunk.swap_logs@[i].log_index is Some,
        forall|i: int|
            0 <= i < chunk.modify_logs@.len() ==> (
            #[trigger] chunk.modify_logs@[i]).transaction_index is Some
                && chunk.modify_logs@[i].log_index is Some,
        forall|i: int|
            0 <= i < chunk.controller_logs@.len() ==> (
            #[trigger] chunk.controller_logs@[i]).block_number is Some,
    ensures
        chunk_is_mined(watched, chunk),
{
}

/// The transactions of more blocks bring more updates.
proof fn blocks_concat(
    a: Seq<(u64, Vec<Transaction>)>,
    b: Seq<(u64, Vec<Transaction>)>,
    controller: Address,
    known: Seq<(PoolId, PoolKey)>,
)
    ensures
        all_block_updates(a + b, controller, known) == all_block_updates(a, controller, known)
            + all_block_updates(b, controller, known),
    decreases b.len(),
{
    if b.len() == 0 {
        assert(a + b =~= a);
        appending_in_turn(
            all_block_updates(a, controller, known),
            Seq::<PoolUpdate>::empty(),
            Seq::empty(),
        );
    } else {
        let front = b.drop_last();
        assert((a + b).drop_last() =~= a + front);
        assert((a + b).last() == b.last());
        blocks_concat(a, front, controller, known);
        appending_in_turn(
            all_block_updates(a, controller, known),
            all_block_updates(front, controller, known),
            all_transaction_updates(b.last().1@, b.last().0, controller, known),
        );
    }
}

/// A range of blocks brings all that its parts bring: where what was fetched of a
/// range is what was fetched of two parts of it, one after the other, its updates are
/// those of the parts, each as often, though not in the same order.
pub proof fn range_brings_what_its_parts_bring(
    view: ProviderView,
    a: BackfillChunk,
    b: BackfillChunk,
    both: BackfillChunk,
)
    requires
        both.swap_logs@ == a.swap_logs@ + b.swap_logs@,
        both.modify_logs@ == a.modify_logs@ + b.modify_logs@,
        both.controller_logs@ == a.controller_logs@ + b.controller_logs@,
        both.blocks@ == a.blocks@ + b.blocks@,
    ensures
        chunk_updates(
            view.watched,
            both,
            view.controller_address,
            view.angstrom_address,
            view.known_pools,
        ).to_multiset() == chunk_updates(
            view.watched,
            a,
            view.controller_address,
            view.angstrom_address,
            view.known_pools,
        ).to_multiset().add(
            chunk_updates(
                view.watched,
                b,
                view.controller_address,
                view.angstrom_address,
                view.known_pools,
            ).to_multiset(),
        ),
{
    let (w, c, g, k) = (
        view.watched,
        view.controller_address,
        view.angstrom_address,
        view.known_pools,
    );
    swaps_concat(w, a.swap_logs@, b.swap_logs@, None);
    liquidity_concat(w, a.modify_logs@, b.modify_logs@, None);
    controller_concat(a.controller_logs@, b.controller_logs@, None, g);
    blocks_concat(a.blocks@, b.blocks@, c, k);
    let (s1, s2) = (
        all_swap_updates(w, a.swap_logs@, None),
        all_swap_updates(w, b.swap_logs@, None),
    );
    let (m1, m2) = (
        all_liquidity_updates(w, a.modify_logs@, None),
        all_liquidity_updates(w, b.modify_logs@, None),
    );
    let (c1, c2) = (
        all_controller_updates(a.controller_logs@, None, g),
        all_controller_updates(b.controller_logs@, None, g),
    );
    let (t1, t2) = (all_block_updates(a.blocks@, c, k), all_block_updates(b.blocks@, c, k));
    interleaved_parts(s1, s2, m1, m2, c1, c2, t1, t2);
}

/// The same parts in another order hold the same.
proof fn interleaved_parts(
    s1: Seq<PoolUpdate>,
    s2: Seq<PoolUpdate>,
    m1: Seq<PoolUpdate>,
    m2: Seq<PoolUpdate>,
    c1: Seq<PoolUpdate>,
    c2: Seq<PoolUpdate>,
    t1: Seq<PoolUpdate>,
    t2: Seq<PoolUpdate>,
)
    ensures
        ((s1 + s2) + (m1 + m2) + (c1 + c2) + (t1 + t2)).to_multiset() == (s1 + m1 + c1
            + t1).to_multiset().add((s2 + m2 + c2 + t2).to_multiset()),
{
    vstd::seq_lib::lemma_multiset_commutative(s1, s2);
    vstd::seq_lib::lemma_multiset_commutative(m1, m2);
    vstd::seq_lib::lemma_multiset_commutative(c1, c2);
    vstd::seq_lib::lemma_multiset_commutative(t1, t2);
    vstd::seq_lib::lemma_multiset_commutative(s1 + s2, m1 + m2);
    vstd::seq_lib::lemma_multiset_commutative((s1 + s2) + (m1 + m2), c1 + c2);
    vstd::seq_lib::lemma_multiset_commutative((s1 + s2) + (m1 + m2) + (c1 + c2), t1 + t2);
    vstd::seq_lib::lemma_multiset_commutative(s1, m1);
    vstd::seq_lib::lemma_multiset_commutative(s1 + m1, c1);
    vstd::seq_lib::lemma_multiset_commutative(s1 + m1 + c1, t1);
    vstd::seq_lib::lemma_multiset_commutative(s2, m2);
    vstd::seq_lib::lemma_multiset_commutative(s2 + m2, c2);
    vstd::seq_lib::lemma_multiset_commutative(s2 + m2 + c2, t2);
    let all: Multiset<PoolUpdate> = ((s1 + s2) + (m1 + m2) + (c1 + c2) + (t1 + t2)).to_multiset();
    assert(all =~= (s1 + m1 + c1 + t1).to_multiset().add((s2 + m2 + c2 + t2).to_multiset()));
}

} // verus!
