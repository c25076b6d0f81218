//! Following the chain: logs, reorganizations, blocks and prices.
use std::collections::HashMap;
use uni_v4::completed_block_stream::{BlockInfo, CompletedBlockStream};
use uni_v4::events::{
    modify_liquidity_topic, pool_configured_topic, pool_fees_configured_topic, pool_removed_topic,
    swap_topic, Log, Transaction,
};
use uni_v4::fetch_pool_keys::{
    block_ranges, fetch_angstrom_pools, set_controller_address, ControllerAlreadySet,
};
use uni_v4::liquidity_base::BaselineLiquidity;
use uni_v4::pool_key::{PoolKey, PoolKeyWithFees};
use uni_v4::pool_registry::UniswapPoolRegistry;
use uni_v4::pool_state::{BaselinePoolState, FeeConfiguration};
use uni_v4::pool_update_provider::{
    backfill_ranges, get_affected_pools, update_to_stored_event, BackfillChunk, BlockLogs,
    BlockStep, PoolUpdateError, PoolUpdateProvider, StoredEvent,
};
use uni_v4::shared_pools::UniswapPools;
use uni_v4::slot0::{NoOpSlot0Stream, Slot0Action, Slot0Client, Slot0Event};
use uni_v4::sqrt_price::SqrtPriceX96;
use uni_v4::state_stream::StateStream;
use uni_v4::updates::{ModifyLiquidityEventData, PoolUpdate, Slot0Data, Slot0Update};
use uni_v4::words::{i128_to_i256, Address, PoolId, B256, I256, U160, U256};

const MANAGER: Address = Address { hi: 1, lo: 1 };
const CONTROLLER: Address = Address { hi: 2, lo: 2 };
const ANGSTROM: Address = Address { hi: 3, lo: 3 };
const TOKEN_A: Address = Address { hi: 4, lo: 4 };
const TOKEN_B: Address = Address { hi: 5, lo: 5 };

fn id(n: u128) -> PoolId {
    B256 { word: U256::from_u128(n) }
}

fn word(n: i128) -> U256 {
    i128_to_i256(n).raw
}

fn address_word(a: Address) -> B256 {
    B256 { word: U256 { l0: a.lo as u64, l1: (a.lo >> 64) as u64, l2: a.hi as u64, l3: 0 } }
}

fn bytes(words: &[U256]) -> Vec<u8> {
    words.iter().flat_map(|w| B256 { word: *w }.to_bytes()).collect()
}

fn log(topics: Vec<B256>, words: &[U256], block: u64, tx: u64, index: u64) -> Log {
    Log {
        topics,
        data: bytes(words),
        block_number: Some(block),
        transaction_index: Some(tx),
        log_index: Some(index),
    }
}

fn swap_log(pool: PoolId, block: u64, tx: u64, index: u64) -> Log {
    log(
        vec![swap_topic(), pool, address_word(TOKEN_A)],
        &[word(1), word(-2), word(3), word(4), word(-5), word(6)],
        block,
        tx,
        index,
    )
}

fn change_log(pool: PoolId, delta: i128, block: u64, tx: u64, index: u64) -> Log {
    log(
        vec![modify_liquidity_topic(), pool, address_word(TOKEN_A)],
        &[word(-60), word(60), word(delta), word(0)],
        block,
        tx,
        index,
    )
}

fn stored(pool: PoolId, delta: i128, block: u64) -> StoredEvent {
    StoredEvent {
        block,
        tx_index: 0,
        log_index: 0,
        pool_id: pool,
        liquidity_event: ModifyLiquidityEventData {
            sender: TOKEN_A,
            tick_lower: -60,
            tick_upper: 60,
            liquidity_delta: i128_to_i256(delta),
            salt: id(0),
        },
    }
}

fn provider(block: u64) -> PoolUpdateProvider {
    let mut provider = PoolUpdateProvider::new(
        MANAGER,
        CONTROLLER,
        ANGSTROM,
        UniswapPoolRegistry::new(),
        block,
    );
    provider.add_pool(id(1));
    provider.add_pool(id(2));
    provider
}

fn block_logs(swaps: Vec<Log>, changes: Vec<Log>) -> BlockLogs {
    BlockLogs {
        pool_logs: Ok((swaps, changes)),
        controller_logs: Ok(vec![]),
        transactions: Ok(vec![]),
    }
}

fn key(currency0: Address, currency1: Address, fee: u32) -> PoolKey {
    PoolKey { currency0, currency1, fee, tick_spacing: 60, hooks: ANGSTROM }
}

fn fee_call(asset_a: Address, asset_b: Address) -> Vec<u8> {
    let mut input: Vec<u8> = vec![0x4d, 0x2b, 0xf4, 0x7c];
    input.extend(bytes(&[
        word(32),
        word(1),
        address_word(asset_a).word,
        address_word(asset_b).word,
        word(7),
        word(8),
        word(9),
    ]));
    input
}

#[test]
fn blocks_are_fetched_in_chunks() {
    assert_eq!(backfill_ranges(5, 4), vec![]);
    assert_eq!(backfill_ranges(5, 5), vec![(5, 5)]);
    assert_eq!(backfill_ranges(1, 250), vec![(1, 100), (101, 200), (201, 250)]);
    assert_eq!(backfill_ranges(0, 99), vec![(0, 99)]);
}

#[test]
fn logs_are_queried_in_ranges() {
    assert_eq!(block_ranges(7, 7), vec![]);
    // nothing lies between a deployment and a block before it
    assert_eq!(block_ranges(5, 3), vec![]);
    assert_eq!(block_ranges(usize::MAX, 0), vec![]);
    assert_eq!(block_ranges(0, 50), vec![(0, 50)]);
    assert_eq!(
        block_ranges(10, 200_100),
        vec![(10, 100_009), (100_009, 200_008), (200_008, 200_100)]
    );
}

#[test]
fn the_controller_is_set_once() {
    let mut slot: Option<Address> = None;
    assert_eq!(set_controller_address(&mut slot, CONTROLLER), Ok(()));
    assert_eq!(set_controller_address(&mut slot, CONTROLLER), Ok(()));
    assert_eq!(slot, Some(CONTROLLER));
    assert_eq!(
        set_controller_address(&mut slot, MANAGER),
        Err(ControllerAlreadySet { existing: CONTROLLER, refused: MANAGER })
    );
    assert_eq!(slot, Some(CONTROLLER));
}

#[test]
fn configured_pools_are_fetched() {
    let (a, b) = (address_word(TOKEN_A), address_word(TOKEN_B));
    let configured = |bundle: i128, swap: i128| {
        log(
            vec![pool_fees_configured_topic(), a, b],
            &[word(60), word(bundle), word(swap), word(3)],
            1,
            0,
            0,
        )
    };
    let removed = |fee: i128| {
        log(vec![pool_removed_topic(), a, b, B256 { word: word(fee) }], &[word(60)], 2, 0, 0)
    };
    let pool = |bundle: u32, swap: u32| PoolKeyWithFees {
        pool_key: PoolKey {
            currency0: TOKEN_A,
            currency1: TOKEN_B,
            fee: bundle,
            tick_spacing: 60,
            hooks: ANGSTROM,
        },
        bundle_fee: bundle,
        swap_fee: swap,
        protocol_fee: 3,
    };
    let pools = fetch_angstrom_pools(
        &vec![configured(10, 1), configured(20, 2), configured(10, 1), swap_log(id(1), 1, 0, 0)],
        ANGSTROM,
    );
    assert_eq!(pools.len(), 2);
    assert!(pools.contains(&pool(10, 1)) && pools.contains(&pool(20, 2)));
    // a removal takes out every entry of its key
    let pools = fetch_angstrom_pools(
        &vec![configured(10, 1), configured(10, 5), configured(20, 2), removed(10)],
        ANGSTROM,
    );
    assert_eq!(pools, vec![pool(20, 2)]);
    // and a pool can come back
    let pools = fetch_angstrom_pools(&vec![configured(10, 1), removed(10), configured(10, 4)], ANGSTROM);
    assert_eq!(pools, vec![pool(10, 4)]);
    // the other form of the event tells of the same pool, with fees of its own
    let plain = || {
        log(
            vec![pool_configured_topic(), a, b, B256 { word: word(10) }],
            &[word(60), address_word(ANGSTROM).word, word(30)],
            1,
            0,
            0,
        )
    };
    let pools = fetch_angstrom_pools(&vec![plain()], ANGSTROM);
    assert_eq!(pools, vec![PoolKeyWithFees { protocol_fee: 500, ..pool(10, 30) }]);
    assert!(fetch_angstrom_pools(&vec![plain(), removed(10)], ANGSTROM).is_empty());
}

#[test]
fn both_forms_of_a_configuration_are_read() {
    let mut provider = provider(10);
    let (a, b) = (address_word(TOKEN_A), address_word(TOKEN_B));
    let fetched = BlockLogs {
        pool_logs: Ok((vec![], vec![])),
        controller_logs: Ok(vec![log(
            vec![pool_fees_configured_topic(), a, b],
            &[word(60), word(25), word(30), word(35)],
            11,
            0,
            0,
        )]),
        transactions: Ok(vec![]),
    };
    let updates = provider.process_block_events(11, fetched).unwrap();
    let configured = key(TOKEN_A, TOKEN_B, 25);
    assert_eq!(updates.len(), 1);
    assert!(matches!(
        &updates[0],
        PoolUpdate::PoolConfigured {
            pool_key, pool_id, block: 11, bundle_fee: 25, swap_fee: 30, protocol_fee: 35,
            tick_spacing: 60,
        } if *pool_key == configured && *pool_id == PoolId::from(configured)
    ));
}

#[test]
fn a_fee_change_reaches_every_pool_of_its_assets() {
    let mut provider = provider(10);
    let known = vec![
        key(TOKEN_A, TOKEN_B, 10),
        key(TOKEN_A, MANAGER, 10),
        key(TOKEN_A, TOKEN_B, 20),
    ];
    provider.pool_registry = UniswapPoolRegistry::from(known.clone());
    // in whatever order the assets are given
    for input in [fee_call(TOKEN_A, TOKEN_B), fee_call(TOKEN_B, TOKEN_A)] {
        let fetched = BlockLogs {
            pool_logs: Ok((vec![], vec![])),
            controller_logs: Ok(vec![]),
            transactions: Ok(vec![Transaction { to: Some(CONTROLLER), input }]),
        };
        let updates = provider.process_block_events(11, fetched).unwrap();
        let ids: Vec<PoolId> = updates
            .iter()
            .map(|u| match u {
                PoolUpdate::FeeUpdate {
                    pool_id, block: 11, bundle_fee: 7, swap_fee: 8, protocol_fee: 9,
                } => *pool_id,
                _ => panic!("a fee change"),
            })
            .collect();
        assert_eq!(ids, vec![PoolId::from(known[0]), PoolId::from(known[2])]);
    }
    // no pool is known of these
    let fetched = BlockLogs {
        pool_logs: Ok((vec![], vec![])),
        controller_logs: Ok(vec![]),
        transactions: Ok(vec![Transaction {
            to: Some(CONTROLLER),
            input: fee_call(TOKEN_B, MANAGER),
        }]),
    };
    assert!(provider.process_block_events(11, fetched).unwrap().is_empty());
}

#[test]
fn pools_are_watched() {
    let mut provider = provider(1);
    let mut watched = provider.tracked_pools();
    watched.sort_by_key(|i| i.word.l0);
    assert_eq!(watched, vec![id(1), id(2)]);
    provider.remove_pool(id(1));
    assert_eq!(provider.tracked_pools(), vec![id(2)]);
    assert_eq!(provider.slot0_pool_id(&id(9)), None);
    // the prices of a known pool are asked for by its identifier on chain
    let known = key(TOKEN_A, TOKEN_B, 10);
    let on_chain = PoolId::from(known.with_dynamic_fee());
    provider.pool_registry = UniswapPoolRegistry::from(vec![known]);
    assert_eq!(provider.slot0_pool_id(&PoolId::from(known)), Some(on_chain));
    assert_eq!(provider.slot0_pool_id(&on_chain), Some(on_chain));
}

#[test]
fn the_events_of_a_block() {
    let mut provider = provider(10);
    let known = key(TOKEN_A, TOKEN_B, 10);
    provider.pool_registry = UniswapPoolRegistry::from(vec![known]);
    let (a, b) = (address_word(TOKEN_A), address_word(TOKEN_B));
    let fetched = BlockLogs {
        pool_logs: Ok((
            vec![swap_log(id(1), 99, 4, 5), swap_log(id(7), 99, 0, 0)],
            vec![change_log(id(2), 40, 99, 6, 7), change_log(id(7), 40, 99, 6, 8)],
        )),
        controller_logs: Ok(vec![
            log(
                vec![pool_configured_topic(), a, b, B256 { word: word(25) }],
                &[word(60), address_word(ANGSTROM).word, word(30)],
                99,
                0,
                0,
            ),
            log(vec![pool_removed_topic(), a, b, B256 { word: word(25) }], &[word(60)], 99, 0, 0),
        ]),
        transactions: Ok(vec![
            Transaction { to: Some(CONTROLLER), input: fee_call(TOKEN_B, TOKEN_A) },
            Transaction { to: Some(MANAGER), input: fee_call(TOKEN_B, TOKEN_A) },
            Transaction { to: None, input: fee_call(TOKEN_B, TOKEN_A) },
            Transaction { to: Some(CONTROLLER), input: vec![1, 2, 3] },
        ]),
    };
    let updates = provider.process_block_events(11, fetched).unwrap();
    let configured = key(TOKEN_A, TOKEN_B, 25);
    assert_eq!(updates.len(), 5);
    assert!(matches!(
        &updates[0],
        PoolUpdate::SwapEvent { pool_id, block: 11, tx_index: 4, log_index: 5, event }
            if *pool_id == id(1) && event.tick == -5 && event.liquidity == 4
    ));
    assert!(matches!(
        &updates[1],
        PoolUpdate::LiquidityEvent { pool_id, block: 11, tx_index: 6, log_index: 7, event }
            if *pool_id == id(2) && event.liquidity_delta == i128_to_i256(40)
    ));
    assert!(matches!(
        &updates[2],
        PoolUpdate::PoolConfigured {
            pool_key, pool_id, block: 11, bundle_fee: 25, swap_fee: 30, protocol_fee: 500,
            tick_spacing: 60,
        } if *pool_key == configured && *pool_id == PoolId::from(configured)
    ));
    assert!(matches!(
        &updates[3],
        PoolUpdate::PoolRemoved { pool_id, block: 11 } if *pool_id == PoolId::from(configured)
    ));
    // the fee change names the pool of its assets
    assert!(matches!(
        &updates[4],
        PoolUpdate::FeeUpdate { pool_id, block: 11, bundle_fee: 7, swap_fee: 8, protocol_fee: 9 }
            if *pool_id == PoolId::from(known)
    ));
    // only the change of a watched pool goes into history
    assert_eq!(provider.event_history.len(), 1);
    assert_eq!(provider.event_history[0].pool_id, id(2));
}

#[test]
fn a_failed_query_is_the_error() {
    let failed = |what: &str| PoolUpdateError::Provider(what.to_string());
    let mut provider = provider(10);
    let r = provider.process_block_events(
        11,
        BlockLogs {
            pool_logs: Err(failed("logs")),
            controller_logs: Err(failed("controller")),
            transactions: Ok(vec![]),
        },
    );
    assert!(matches!(r, Err(PoolUpdateError::Provider(e)) if e == "logs"));
    assert!(provider.event_history.is_empty());
    // what was fetched before is remembered all the same
    let r = provider.process_block_events(
        11,
        BlockLogs {
            pool_logs: Ok((vec![], vec![change_log(id(1), 5, 11, 0, 0)])),
            controller_logs: Ok(vec![]),
            transactions: Err(failed("transactions")),
        },
    );
    assert!(matches!(r, Err(PoolUpdateError::Provider(e)) if e == "transactions"));
    assert_eq!(provider.event_history.len(), 1);
    // a block that could not be read has no updates
    let updates = provider.advance(
        12,
        BlockLogs {
            pool_logs: Err(failed("logs")),
            controller_logs: Ok(vec![]),
            transactions: Ok(vec![]),
        },
    );
    assert!(updates.is_empty());
    assert_eq!(provider.current_block, 12);
    // nothing is asked for where nothing is watched
    let mut idle =
        PoolUpdateProvider::new(MANAGER, CONTROLLER, ANGSTROM, UniswapPoolRegistry::new(), 1);
    let r = idle.process_block_events(2, block_logs(vec![swap_log(id(1), 2, 0, 0)], vec![]));
    assert!(r.unwrap().is_empty());
}

#[test]
fn history_spans_ten_blocks() {
    let mut provider = provider(100);
    for block in 101..=115u64 {
        let updates =
            provider.advance(block, block_logs(vec![], vec![change_log(id(1), 1, block, 0, 0)]));
        assert_eq!(updates.len(), 1);
    }
    let blocks: Vec<u64> = provider.event_history.iter().map(|e| e.block).collect();
    assert_eq!(blocks, (106..=115u64).collect::<Vec<u64>>());
    assert_eq!(provider.reorg_range(), (106, 115));
    // near the first block the range starts at zero
    let young = PoolUpdateProvider::new(MANAGER, CONTROLLER, ANGSTROM, UniswapPoolRegistry::new(), 3);
    assert_eq!(young.reorg_range(), (0, 3));
}

#[test]
fn a_block_is_new_old_or_a_reorganization() {
    let provider = provider(10);
    assert_eq!(provider.on_new_block(10), BlockStep::Reorg);
    assert_eq!(provider.on_new_block(11), BlockStep::Advance);
    assert_eq!(provider.on_new_block(9), BlockStep::Ignore);
}

#[test]
fn a_reorganization_undoes_and_redoes() {
    let mut provider = provider(20);
    provider.pool_registry = UniswapPoolRegistry::from(vec![key(TOKEN_A, TOKEN_B, 10)]);
    provider.event_history.push_back(stored(id(1), 9, 10));
    provider.event_history.push_back(stored(id(1), 5, 12));
    provider.event_history.push_back(stored(id(2), -6, 20));
    assert!(provider.can_handle_reorg());
    // the most recent first
    let inverse = provider.get_inverse_liquidity_events(11, 20);
    assert_eq!(inverse.len(), 2);
    assert!(matches!(
        &inverse[0],
        PoolUpdate::LiquidityEvent { block: 20, event, .. }
            if event.liquidity_delta == i128_to_i256(6)
    ));
    assert!(matches!(
        &inverse[1],
        PoolUpdate::LiquidityEvent { block: 12, event, .. }
            if event.liquidity_delta == i128_to_i256(-5)
    ));
    let fresh = provider.backfill_blocks(&vec![BackfillChunk {
        swap_logs: vec![swap_log(id(1), 13, 0, 0)],
        modify_logs: vec![change_log(id(1), 77, 15, 0, 1)],
        controller_logs: vec![],
        blocks: vec![(16, vec![Transaction { to: Some(CONTROLLER), input: fee_call(TOKEN_B, TOKEN_A) }])],
    }]);
    assert_eq!(fresh.len(), 3);
    let progress = provider.handle_reorg(Ok(fresh));
    assert_eq!((progress.from_block, progress.to_block), (11, 20));
    assert_eq!(progress.updates.len(), 5);
    assert!(progress.affected.contains(&id(1)) && progress.affected.contains(&id(2)));
    assert_eq!(progress.affected.len(), 3);
    // history now tells of the new chain
    let deltas: Vec<I256> =
        provider.event_history.iter().map(|e| e.liquidity_event.liquidity_delta).collect();
    assert_eq!(deltas, vec![i128_to_i256(77)]);
    let price = Slot0Data { sqrt_price_x96: U160 { hi: 0, lo: 4 }, tick: 5, liquidity: 6 };
    let updates = PoolUpdateProvider::finish_reorg(progress, &vec![(id(1), price)]);
    assert_eq!(updates.len(), 7);
    assert!(matches!(&updates[5], PoolUpdate::UpdatedSlot0 { data, .. } if *data == price));
    assert!(matches!(updates[6], PoolUpdate::Reorg { from_block: 11, to_block: 20 }));
}

#[test]
fn a_reorganization_goes_on_without_a_backfill() {
    let mut provider = provider(20);
    provider.event_history.push_back(stored(id(1), 9, 10));
    provider.event_history.push_back(stored(id(2), -6, 20));
    let progress =
        provider.handle_reorg(Err(PoolUpdateError::Provider("backfill".to_string())));
    assert_eq!((progress.from_block, progress.to_block), (11, 20));
    assert_eq!(progress.updates.len(), 1);
    assert!(matches!(
        &progress.updates[0],
        PoolUpdate::LiquidityEvent { block: 20, event, .. }
            if event.liquidity_delta == i128_to_i256(6)
    ));
    assert!(progress.affected.is_empty());
    // what was undone is out of history
    let blocks: Vec<u64> = provider.event_history.iter().map(|e| e.block).collect();
    assert_eq!(blocks, vec![10]);
    let updates = PoolUpdateProvider::finish_reorg(progress, &vec![]);
    assert_eq!(updates.len(), 2);
    assert!(matches!(updates[1], PoolUpdate::Reorg { from_block: 11, to_block: 20 }));
}

#[test]
fn what_cannot_be_negated_cannot_be_undone() {
    let mut provider = provider(20);
    let lowest = I256 { raw: U256 { l0: 0, l1: 0, l2: 0, l3: 0x8000_0000_0000_0000 } };
    let mut event = stored(id(1), 0, 15);
    event.liquidity_event.liquidity_delta = lowest;
    provider.event_history.push_back(event);
    assert!(!provider.can_handle_reorg());
}

#[test]
fn events_are_stored_and_pools_affected() {
    let event = stored(id(3), 8, 4);
    let update = PoolUpdate::LiquidityEvent {
        pool_id: event.pool_id,
        block: event.block,
        tx_index: event.tx_index,
        log_index: event.log_index,
        event: event.liquidity_event,
    };
    assert_eq!(update_to_stored_event(&update), Some(event));
    assert_eq!(update_to_stored_event(&PoolUpdate::NewBlock(1)), None);
    let affected = get_affected_pools(&vec![
        update,
        PoolUpdate::NewBlock(3),
        PoolUpdate::PoolRemoved { pool_id: id(9), block: 1 },
        PoolUpdate::from_fee_update(id(9), 1, 2, 3, 4),
    ]);
    assert_eq!(affected.to_vec(), vec![id(3), id(9)]);
}

fn block(number: u64, hash: u128, parent: u128) -> BlockInfo<&'static str> {
    BlockInfo { number, hash: id(hash), parent_hash: id(parent), body: "block" }
}

#[test]
fn blocks_come_without_gaps() {
    let mut stream: CompletedBlockStream<&'static str> = CompletedBlockStream::new(id(100), 10);
    assert!(stream.next_ready().is_none());
    stream.on_block(block(11, 111, 100));
    assert_eq!(stream.next_ready().unwrap().number, 11);
    // three blocks are missing
    stream.on_block(block(15, 115, 114));
    assert!(stream.next_ready().is_none());
    assert!(stream.is_solving());
    assert_eq!(stream.wanted_block(), Some(12));
    stream.on_block(block(16, 116, 115));
    let mut seen = Vec::new();
    for number in 12..=14u64 {
        assert_eq!(stream.wanted_block(), Some(number));
        assert!(stream.next_ready().is_none());
        let fetched = block(number, 100 + number as u128, 99 + number as u128);
        seen.push(stream.on_fetched(fetched).unwrap().number);
    }
    assert!(!stream.is_solving());
    while let Some(next) = stream.next_ready() {
        seen.push(next.number);
    }
    assert_eq!(seen, vec![12, 13, 14, 15, 16]);
    assert_eq!((stream.prev_block_number, stream.prev_block_hash), (16, id(116)));
    // an old block is skipped
    stream.on_block(block(15, 999, 998));
    assert!(stream.take_ready().is_none());
    // one in the place of the last is handed out, as a reorg
    stream.on_block(block(16, 999, 998));
    assert_eq!(stream.next_ready().unwrap().hash, id(999));
    assert_eq!((stream.prev_block_number, stream.prev_block_hash), (16, id(999)));
}

#[test]
fn every_block_of_a_chain_is_handed_out_once() {
    let chain = |number: u64| block(number, 1000 + number as u128, 999 + number as u128);
    let mut stream: CompletedBlockStream<&'static str> =
        CompletedBlockStream::new(chain(10).hash, 10);
    let mut seen = Vec::new();
    for arrivals in [vec![13u64, 14, 19], vec![20], vec![], vec![27, 30]] {
        for number in arrivals {
            stream.on_block(chain(number));
        }
        loop {
            if let Some(number) = stream.wanted_block() {
                seen.push(stream.on_fetched(chain(number)).unwrap().number);
            } else if let Some(next) = stream.next_ready() {
                seen.push(next.number);
            } else if !stream.is_solving() {
                break;
            }
        }
    }
    assert_eq!(seen, (11..=30u64).collect::<Vec<u64>>());
    assert_eq!(stream.prev_block_number, 30);
}

#[test]
fn a_block_that_names_its_parent_follows() {
    let mut stream: CompletedBlockStream<&'static str> = CompletedBlockStream::new(id(100), 10);
    stream.on_block(block(13, 113, 100));
    assert_eq!(stream.next_ready().unwrap().number, 13);
}

#[test]
fn pools_are_picked_up_while_the_provider_is_out() {
    let mut stream = StateStream::new(provider(5));
    stream.start_tracking_pool(id(3));
    let out = stream.take_provider().unwrap();
    assert!(stream.take_provider().is_none());
    stream.start_tracking_pool(id(4));
    stream.start_tracking_pool(id(5));
    stream.stop_tracking_pool(id(1));
    stream.stop_tracking_pool(id(5));
    stream.give_back(out);
    stream.catch_up();
    let provider = stream.take_provider().unwrap();
    let mut watched: Vec<u64> = provider.tracked_pools().iter().map(|i| i.word.l0).collect();
    watched.sort();
    assert_eq!(watched, vec![2, 3, 4]);
}

#[test]
fn the_registry_reaches_the_provider() {
    let (first, second) = (key(TOKEN_A, TOKEN_B, 1), key(TOKEN_A, MANAGER, 1));
    let mut stream = StateStream::new(provider(5));
    stream.set_pool_registry(UniswapPoolRegistry::from(vec![first]));
    let provider = stream.take_provider().unwrap();
    assert_eq!(
        provider.slot0_pool_id(&PoolId::from(first)),
        Some(PoolId::from(first.with_dynamic_fee()))
    );
    // one that comes while the provider is out waits for it
    stream.set_pool_registry(UniswapPoolRegistry::from(vec![second]));
    stream.give_back(provider);
    stream.catch_up();
    let provider = stream.take_provider().unwrap();
    assert_eq!(provider.slot0_pool_id(&PoolId::from(first)), None);
    assert_eq!(
        provider.slot0_pool_id(&PoolId::from(second)),
        Some(PoolId::from(second.with_dynamic_fee()))
    );
}

#[test]
fn prices_are_subscribed_to() {
    let update = Slot0Update {
        seq_id: 1,
        current_block: 2,
        angstrom_pool_id: id(1),
        uni_pool_id: id(2),
        sqrt_price_x96: U160 { hi: 0, lo: 3 },
        liquidity: 4,
        tick: 5,
    };
    let mut client = Slot0Client::new();
    let asked = client.subscribe_pools(&vec![id(1), id(2)]);
    assert_eq!(asked, vec![id(1), id(2)]);
    assert!(matches!(client.on_event(Slot0Event::Connected), Slot0Action::Wait));
    assert!(client.has_subscription);
    assert!(matches!(
        client.on_event(Slot0Event::Update(update)),
        Slot0Action::Emit(u) if u == update
    ));
    // subscribing and taking it back leaves what there was
    client.subscribe_pools(&vec![id(3)]);
    assert!(client.subscribed_pools().contains(&id(3)));
    let asked = client.unsubscribe_pools(&vec![id(3)]);
    assert_eq!(asked, vec![id(1), id(2)]);
    client.on_event(Slot0Event::Connected);
    assert!(matches!(
        client.on_event(Slot0Event::Lost),
        Slot0Action::Connect(pools) if pools == vec![id(1), id(2)]
    ));
    assert_eq!(client.reconnect(), vec![id(1), id(2)]);
    let mut none = NoOpSlot0Stream::new();
    none.subscribe_pools(&vec![id(1)]);
    none.unsubscribe_pools(&vec![id(1)]);
    assert!(none.subscribed_pools().is_empty());
    assert!(NoOpSlot0Stream::default().subscribed_pools().is_empty());
}

#[test]
fn undoing_history_restores_the_pools() {
    let price = SqrtPriceX96::from_u256(U256::from_u128(1u128 << 96));
    let liquidity =
        BaselineLiquidity::new(60, 0, price, 1000, HashMap::new(), HashMap::new());
    let fees =
        FeeConfiguration { is_bundle_mode: false, bundle_fee: 1, swap_fee: 2, protocol_fee: 3 };
    let mut pools = UniswapPools::empty(20);
    pools.insert(id(1), BaselinePoolState::new(liquidity, 20, fees));
    let mut provider = provider(20);
    for (block, delta) in [(12u64, 70i128), (15, -30), (20, 500)] {
        let updates =
            provider.backfill_blocks(&vec![BackfillChunk {
                swap_logs: vec![],
                modify_logs: vec![change_log(id(1), delta, block, 0, 0)],
                controller_logs: vec![],
                blocks: vec![],
            }]);
        provider.event_history.push_back(update_to_stored_event(&updates[0]).unwrap());
        pools.update_pools(updates);
    }
    assert_eq!(pools.get_pool(&id(1)).unwrap().current_liquidity(), 1540);
    for inverse in provider.get_inverse_liquidity_events(11, 20) {
        pools.update_pools(vec![inverse]);
    }
    let pool = pools.get_pool(&id(1)).unwrap();
    assert_eq!(pool.current_liquidity(), 1000);
    assert!(pool.liquidity.initialized_ticks.values().all(|t| t.liquidity_net == 0));
    // as one batch, which is applied by transaction and log, they do the same
    pools.update_pools(vec![
        change_of(&provider.event_history[0]),
        change_of(&provider.event_history[1]),
        change_of(&provider.event_history[2]),
    ]);
    assert_eq!(pools.get_pool(&id(1)).unwrap().current_liquidity(), 1540);
    pools.update_pools(provider.get_inverse_liquidity_events(11, 20));
    assert_eq!(pools.get_pool(&id(1)).unwrap().current_liquidity(), 1000);
}

fn change_of(event: &StoredEvent) -> PoolUpdate {
    PoolUpdate::from_liquidity(
        event.pool_id,
        event.block,
        event.tx_index,
        event.log_index,
        event.liquidity_event,
    )
}
