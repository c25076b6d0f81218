//! The registry, the factory, the service and its builder.
use std::collections::HashMap;
use uni_v4::baseline_pool_factory::{
    apply_ticks, plan_tick_batches, BaselinePoolFactory, PoolData, TickBatch, TickData, TickLoad,
    UpdateMessage, INITIAL_TICKS_PER_SIDE,
};
use uni_v4::events::{modify_liquidity_topic, swap_topic, Log};
use uni_v4::liquidity_base::BaselineLiquidity;
use uni_v4::pool_key::{PoolKey, PoolKeyWithFees};
use uni_v4::pool_manager_service::{factory_update, PoolManagerService, ServiceAction};
use uni_v4::pool_manager_service_builder::{NoOpEventStream, PoolManagerServiceBuilder};
use uni_v4::pool_registry::{sort_pair, UniswapPoolRegistry};
use uni_v4::pool_state::{BaselinePoolState, FeeConfiguration};
use uni_v4::pool_update_provider::{BackfillChunk, BlockLogs, PoolUpdateProvider};
use uni_v4::shared_pools::UniswapPools;
use uni_v4::sqrt_price::SqrtPriceX96;
use uni_v4::tick_info::TickInfo;
use uni_v4::updates::{PoolUpdate, Slot0Data, Slot0Update};
use uni_v4::words::{i128_to_i256, Address, PoolId, B256, U160, U256};

const MANAGER: Address = Address { hi: 1, lo: 1 };
const CONTROLLER: Address = Address { hi: 2, lo: 2 };
const ANGSTROM: Address = Address { hi: 3, lo: 3 };
const TOKEN_A: Address = Address { hi: 4, lo: 4 };
const TOKEN_B: Address = Address { hi: 5, lo: 5 };
const TOKEN_C: Address = Address { hi: 6, lo: 6 };

fn key(currency0: Address, currency1: Address, fee: u32) -> PoolKey {
    PoolKey { currency0, currency1, fee, tick_spacing: 60, hooks: ANGSTROM }
}

fn keys() -> Vec<PoolKey> {
    vec![key(TOKEN_A, TOKEN_B, 10), key(TOKEN_A, TOKEN_B, 20), key(TOKEN_B, TOKEN_C, 10)]
}

fn private(key: PoolKey) -> PoolId {
    PoolId::from(key.with_dynamic_fee())
}

fn state(liquidity: u128) -> BaselinePoolState {
    let price = SqrtPriceX96::from_u256(U256::from_u128(1u128 << 96));
    BaselinePoolState::new(
        BaselineLiquidity::new(60, 0, price, liquidity, HashMap::new(), HashMap::new()),
        1,
        FeeConfiguration { is_bundle_mode: false, bundle_fee: 1, swap_fee: 2, protocol_fee: 3 },
    )
}

fn service(
    auto_pool_creation: bool,
    has_slot0_stream: bool,
    channel_mode: bool,
) -> PoolManagerService {
    let mut factory =
        BaselinePoolFactory::new(UniswapPoolRegistry::from(keys()), MANAGER, None, false);
    factory.tick_band = 50;
    let mut pools = UniswapPools::empty(7);
    pools.insert(PoolId::from(keys()[0]), state(100));
    PoolManagerService::new(factory, pools, auto_pool_creation, has_slot0_stream, channel_mode)
}

fn text(actions: &[ServiceAction]) -> String {
    format!("{:?}", actions)
}

#[test]
fn a_registry_finds_its_pools() {
    let registry = UniswapPoolRegistry::from(keys());
    for key in keys() {
        let id = PoolId::from(key);
        assert_eq!(registry.get(&id), Some(&key));
        assert_eq!(registry.private_key_from_public(&id), Some(private(key)));
    }
    let last = keys()[2];
    assert_eq!(registry.public_key_from_private(&private(last)), Some(PoolId::from(last)));
    assert_eq!(registry.get(&private(last)), None);
    assert_eq!(registry.public_key_from_private(&PoolId::from(last)), None);
    assert_eq!(registry.private_key_from_public(&private(last)), None);
    assert_eq!(registry.pools().len(), 3);
    assert_eq!(registry.public_keys().len(), 3);
    assert!(registry.public_keys().contains(&PoolId::from(last)));
    assert!(registry.private_keys().contains(&private(last)));
    let copy = registry.clone();
    assert_eq!(copy.pools().keys(), registry.pools().keys());
    assert_eq!(UniswapPoolRegistry::default().pools().len(), 0);
}

#[test]
fn pools_are_found_by_their_tokens() {
    let mut registry = UniswapPoolRegistry::new();
    for key in keys() {
        registry.add_new_pool(key);
    }
    let found = registry.get_pools_by_token_pair(TOKEN_A, TOKEN_B);
    assert_eq!(found.len(), 2);
    // the order of the tokens does not matter
    assert_eq!(registry.get_pools_by_token_pair(TOKEN_B, TOKEN_A), found);
    assert!(registry.get_pools_by_token_pair(TOKEN_A, TOKEN_C).is_empty());
    let id = PoolId::from(keys()[1]);
    assert_eq!(registry.get_pool_id_by_tokens_and_fee(TOKEN_A, TOKEN_B, 20), Some(id));
    assert_eq!(registry.get_pool_id_by_tokens_and_fee(TOKEN_B, TOKEN_A, 20), Some(id));
    assert_eq!(registry.get_pool_id_by_tokens_and_fee(TOKEN_A, TOKEN_B, 30), None);
    assert_eq!(sort_pair(TOKEN_C, TOKEN_A), (TOKEN_A, TOKEN_C));
    assert_eq!(sort_pair(TOKEN_A, TOKEN_C), (TOKEN_A, TOKEN_C));
}

#[test]
fn ticks_are_loaded_in_batches() {
    let batches = plan_tick_batches(0, 60, true, 60);
    assert_eq!(batches.iter().map(|b| b.num_ticks).collect::<Vec<u16>>(), vec![25, 25, 10]);
    assert_eq!(batches[0].tick_start, 0);
    let starts: Vec<i32> = batches.iter().map(|b| b.tick_start).collect();
    let above = plan_tick_batches(0, 60, false, 60);
    let mirrored: Vec<i32> = above.iter().map(|b| -b.tick_start).collect();
    assert_eq!(starts, mirrored);
    assert!(batches.iter().all(|b| b.zero_for_one));
    assert!(plan_tick_batches(0, 60, true, 0).is_empty());
    let (asks, bids) = BaselinePoolFactory::load_tick_data_in_band(0, 60, 60);
    assert_eq!((asks, bids), (batches, above));
}

#[test]
fn a_factory_loads_its_pools() {
    let mut factory = BaselinePoolFactory::new(
        UniswapPoolRegistry::from(keys()),
        MANAGER,
        Some(50),
        true,
    );
    assert_eq!(factory.pool_manager, MANAGER);
    assert_eq!(factory.registry().pools().len(), 3);
    assert_eq!(factory.get_uniswap_pool_ids().len(), 3);
    let loads = factory.init_baseline_pools(12);
    assert_eq!(loads.len(), 3);
    assert_eq!(loads[0].pool_id, PoolId::from(keys()[0]));
    assert_eq!(loads[0].internal_pool_id, private(keys()[0]));
    assert_eq!((loads[0].tick_band, loads[0].block), (50, 12));
    // a new pool
    let new = key(TOKEN_A, TOKEN_C, 5);
    let load = factory.create_new_baseline_angstrom_pool(new, 13, 1, 2, 3);
    assert_eq!(load.pool_id, PoolId::from(new));
    assert_eq!((load.tick_band, load.bundle_fee, load.protocol_fee), (50, 1, 3));
    assert_eq!(factory.conversion_map().get(&PoolId::from(new)), Some(&private(new)));
    let queued = factory.queue_pool_creation(key(TOKEN_A, TOKEN_C, 6), 13, 1, 2, 3);
    assert_eq!(queued.tick_band, INITIAL_TICKS_PER_SIDE);
    assert_eq!(factory.current_pool_keys().len(), 5);
    // and out again
    assert_eq!(factory.remove_pool(new), PoolId::from(new));
    assert_eq!(factory.remove_pool_if_known(new), None);
    assert_eq!(
        factory.remove_pool_if_known(keys()[0]),
        Some(PoolId::from(keys()[0]))
    );
    factory.remove_pool_by_id(PoolId::from(keys()[1]));
    assert_eq!(factory.current_pool_keys().len(), 2);
}

#[test]
fn a_pool_is_made_of_what_was_loaded() {
    let mut factory = BaselinePoolFactory::new(UniswapPoolRegistry::new(), MANAGER, None, true);
    assert_eq!(factory.tick_band, INITIAL_TICKS_PER_SIDE);
    let load = factory.create_new_baseline_angstrom_pool(keys()[0], 13, 1, 2, 3);
    let data =
        PoolData { sqrt_price: U160 { hi: 0, lo: 1 << 96 }, tick: 4, tick_spacing: 60, liquidity: 9 };
    let ticks = vec![
        TickData { tick: 0, initialized: true, liquidity_net: 5 },
        TickData { tick: 60, initialized: false, liquidity_net: 6 },
    ];
    let pool = factory.create_baseline_pool(&load, &data, &ticks);
    assert_eq!(pool.block_number(), 13);
    assert_eq!((pool.bundle_fee(), pool.swap_fee(), pool.protocol_fee()), (1, 2, 3));
    assert!(pool.is_bundle_mode());
    assert_eq!((pool.current_tick(), pool.current_liquidity()), (4, 9));
    assert_eq!(pool.current_price().to_u256(), U256::from_u128(1 << 96));
    assert_eq!(pool.liquidity.initialized_ticks.len(), 1);
    assert_eq!(pool.liquidity.tick_bitmap[&0], U256::from_u128(1));
}

#[test]
fn more_ticks_are_requested_beyond_the_last() {
    let mut factory = BaselinePoolFactory::new(UniswapPoolRegistry::new(), MANAGER, None, false);
    let known = keys()[0];
    factory.create_new_baseline_angstrom_pool(known, 1, 1, 2, 3);
    let id = PoolId::from(known);
    let load = factory.request_more_ticks(id, true, -600, 60, 50, Some(9));
    assert_eq!(
        load,
        TickLoad {
            pool_id: id,
            internal_pool_id: private(known),
            batch: TickBatch { tick_start: -660, zero_for_one: true, num_ticks: 50 },
            tick_spacing: 60,
            block: Some(9),
        }
    );
    let up = factory.request_more_ticks(private(known), false, 600, 60, 50, None);
    assert_eq!(up.batch.tick_start, 660);
    // an unknown pool goes by its own identifier
    assert_eq!(up.internal_pool_id, private(known));
    let message = BaselinePoolFactory::loaded_ticks(
        &load,
        &vec![TickData { tick: -660, initialized: true, liquidity_net: 7 }],
    );
    match factory_update(message) {
        PoolUpdate::NewTicks { pool_id, ticks, tick_bitmap } => {
            assert_eq!(pool_id, id);
            assert_eq!(ticks[&-660], TickInfo { liquidity_net: 7, initialized: true });
            assert_eq!(tick_bitmap.len(), 1);
        }
        _ => panic!("ticks were loaded"),
    }
}

#[test]
fn the_service_starts_up() {
    let plan = service(true, true, true).startup();
    assert!(keys().iter().all(|k| plan.track.contains(&private(*k))));
    assert_eq!(plan.subscribe.unwrap().len(), 3);
    assert_eq!(plan.send.len(), 1);
    assert_eq!(plan.send[0].0, PoolId::from(keys()[0]));
    let plan = service(true, false, false).startup();
    assert!(plan.subscribe.is_none());
    assert!(plan.send.is_empty());
}

#[test]
fn the_service_takes_in_a_block() {
    let mut service = service(true, true, false);
    assert_eq!(service.current_block(), 7);
    let new = key(TOKEN_A, TOKEN_C, 5);
    let actions = service.on_events(
        vec![
            PoolUpdate::PoolConfigured {
                pool_key: new,
                pool_id: PoolId::from(new),
                block: 8,
                bundle_fee: 1,
                swap_fee: 2,
                protocol_fee: 3,
                tick_spacing: 60,
            },
            PoolUpdate::NewBlock(8),
        ],
        false,
    );
    assert_eq!(actions.len(), 4);
    assert!(matches!(actions[0], ServiceAction::Notify));
    assert!(matches!(
        actions[1],
        ServiceAction::LoadPool(load)
            if load.pool_id == PoolId::from(new) && load.tick_band == INITIAL_TICKS_PER_SIDE
    ));
    assert!(matches!(actions[2], ServiceAction::ShareRegistry));
    assert!(matches!(actions[3], ServiceAction::CheckTicks(8)));
    assert_eq!(service.current_block(), 8);
    assert_eq!(service.get_pools().get_block(), 8);
    assert_eq!(service.current_pool_keys().len(), 4);
}

#[test]
fn pools_come_up_only_if_wanted() {
    let mut service = service(false, false, false);
    let new = key(TOKEN_A, TOKEN_C, 5);
    let actions = service.process_pool_update(&PoolUpdate::PoolConfigured {
        pool_key: new,
        pool_id: PoolId::from(new),
        block: 8,
        bundle_fee: 1,
        swap_fee: 2,
        protocol_fee: 3,
        tick_spacing: 60,
    });
    assert!(actions.is_empty());
    assert_eq!(service.current_pool_keys().len(), 3);
}

#[test]
fn removed_pools_go() {
    let mut service = service(true, true, false);
    let id = PoolId::from(keys()[0]);
    let actions = service.process_pool_update(&PoolUpdate::PoolRemoved { pool_id: id, block: 8 });
    assert_eq!(text(&actions), text(&[ServiceAction::UnsubscribeSlot0(id)]));
    assert!(service.get_pools().get_pool(&id).is_none());
    assert_eq!(service.current_pool_keys().len(), 2);
}

#[test]
fn loaded_pools_are_followed() {
    let mut service = service(true, true, false);
    let known = keys()[2];
    // its events by its identifier on chain, its prices by its public one
    let actions =
        service.on_factory_update(UpdateMessage::NewPool(PoolId::from(known), state(55)));
    assert_eq!(
        text(&actions),
        text(&[
            ServiceAction::StartTracking(private(known)),
            ServiceAction::SubscribeSlot0(PoolId::from(known)),
        ])
    );
    let pool = service.get_pools().get_pool(&PoolId::from(known)).unwrap();
    assert_eq!(pool.current_liquidity(), 55);
}

fn event_log(topic: B256, pool: PoolId, words: &[i128], tx: u64) -> Log {
    Log {
        topics: vec![topic, pool, B256 { word: U256::zero() }],
        data: words.iter().flat_map(|w| B256 { word: i128_to_i256(*w).raw }.to_bytes()).collect(),
        block_number: Some(8),
        transaction_index: Some(tx),
        log_index: Some(0),
    }
}

#[test]
fn events_on_chain_reach_their_pools() {
    // the two pools of the first tokens share their identifier on chain
    let known = vec![keys()[0], keys()[2]];
    let public = PoolId::from(known[0]);
    let factory =
        BaselinePoolFactory::new(UniswapPoolRegistry::from(known.clone()), MANAGER, None, false);
    let mut pools = UniswapPools::empty(7);
    pools.insert(public, state(100));
    let mut service = PoolManagerService::new(factory, pools, true, false, false);
    let mut provider =
        PoolUpdateProvider::new(MANAGER, CONTROLLER, ANGSTROM, UniswapPoolRegistry::from(known), 7);
    for id in service.startup().track {
        provider.add_pool(id);
    }
    let on_chain = private(keys()[0]);
    let swap = event_log(swap_topic(), on_chain, &[1, -2, 1 << 97, 400, 13863, 6], 1);
    let change = event_log(modify_liquidity_topic(), on_chain, &[13800, 13920, 30, 0], 2);
    let fetched = BlockLogs {
        pool_logs: Ok((vec![swap], vec![change])),
        controller_logs: Ok(vec![]),
        transactions: Ok(vec![]),
    };
    let updates = provider.advance(8, fetched);
    assert_eq!(updates.len(), 2);
    service.on_events(updates, false);
    let pool = service.get_pools().get_pool(&public).unwrap();
    assert_eq!(pool.current_tick(), 13863);
    assert_eq!(pool.current_price().to_u256(), U256::from_u128(1 << 97));
    assert_eq!(pool.current_liquidity(), 430);
    assert_eq!(pool.liquidity.initialized_ticks[&13800].liquidity_net, 30);
    assert_eq!(pool.liquidity.initialized_ticks[&13920].liquidity_net, -30);
    // it is what would be loaded now
    let data = PoolData {
        sqrt_price: U160 { hi: 0, lo: 1 << 97 },
        tick: 13863,
        tick_spacing: 60,
        liquidity: 430,
    };
    let ticks = vec![
        TickData { tick: 13920, initialized: true, liquidity_net: -30 },
        TickData { tick: 13800, initialized: true, liquidity_net: 30 },
    ];
    let load = service.factory.queue_pool_creation(keys()[0], 8, 1, 2, 3);
    let fresh = service.factory.create_baseline_pool(&load, &data, &ticks);
    assert_eq!(pool.current_tick(), fresh.current_tick());
    assert_eq!(pool.current_price(), fresh.current_price());
    assert_eq!(pool.current_liquidity(), fresh.current_liquidity());
    assert_eq!(pool.tick_spacing(), fresh.tick_spacing());
    for (tick, info) in &fresh.liquidity.initialized_ticks {
        assert_eq!(pool.liquidity.initialized_ticks[tick].liquidity_net, info.liquidity_net);
    }
}

// a service and a provider that follow one pool, which is at tick zero
fn followed() -> (PoolManagerService, PoolUpdateProvider) {
    let known = vec![keys()[0], keys()[2]];
    let factory =
        BaselinePoolFactory::new(UniswapPoolRegistry::from(known.clone()), MANAGER, None, false);
    let mut pools = UniswapPools::empty(7);
    pools.insert(PoolId::from(known[0]), state(100));
    let service = PoolManagerService::new(factory, pools, true, false, false);
    let mut provider =
        PoolUpdateProvider::new(MANAGER, CONTROLLER, ANGSTROM, UniswapPoolRegistry::from(known), 7);
    for id in service.startup().track {
        provider.add_pool(id);
    }
    (service, provider)
}

fn logs_of(swaps: Vec<Log>, changes: Vec<Log>) -> BlockLogs {
    BlockLogs {
        pool_logs: Ok((swaps, changes)),
        controller_logs: Ok(vec![]),
        transactions: Ok(vec![]),
    }
}

fn net_of(pool: &BaselinePoolState, tick: i32) -> i128 {
    pool.liquidity.initialized_ticks.get(&tick).map_or(0, |t| t.liquidity_net)
}

fn ticks_loaded(pool_id: PoolId, ticks: Vec<TickData>) -> UpdateMessage {
    let load = TickLoad {
        pool_id,
        internal_pool_id: private(keys()[0]),
        batch: TickBatch { tick_start: 0, zero_for_one: true, num_ticks: 1 },
        tick_spacing: 60,
        block: None,
    };
    BaselinePoolFactory::loaded_ticks(&load, &ticks)
}

#[test]
fn liquidity_beyond_the_loaded_ticks_is_followed() {
    let (mut service, mut provider) = followed();
    let (public, on_chain) = (PoolId::from(keys()[0]), private(keys()[0]));
    // on chain, forty were there before
    let whole_range = event_log(modify_liquidity_topic(), on_chain, &[-887220, 887220, 50, 0], 1);
    let near = event_log(modify_liquidity_topic(), on_chain, &[-60, 60, 7, 0], 2);
    let updates = provider.advance(8, logs_of(vec![], vec![whole_range, near]));
    service.on_events(updates, false);
    let pool = service.get_pools().get_pool(&public).unwrap();
    assert_eq!(pool.current_liquidity(), 157);
    assert_eq!((net_of(&pool, -60), net_of(&pool, 60)), (7, -7));
    assert_eq!(net_of(&pool, -887220), 50);
    // a later load brings what is on chain
    let tick = TickData { tick: -887220, initialized: true, liquidity_net: 90 };
    service.on_factory_update(ticks_loaded(public, vec![tick]));
    let pool = service.get_pools().get_pool(&public).unwrap();
    assert_eq!(net_of(&pool, -887220), 90);
    assert_eq!((net_of(&pool, -60), pool.current_liquidity()), (7, 157));
}

#[test]
fn a_block_that_is_held_back_comes_in_after_the_load() {
    let (mut service, mut provider) = followed();
    let (public, on_chain) = (PoolId::from(keys()[0]), private(keys()[0]));
    let change = event_log(modify_liquidity_topic(), on_chain, &[-60, 60, 30, 0], 1);
    let updates = provider.advance(8, logs_of(vec![], vec![change]));
    assert!(service.on_events(updates, true).is_empty());
    // the ticks are as before the block
    let tick = TickData { tick: -60, initialized: true, liquidity_net: 11 };
    service.on_factory_update(ticks_loaded(public, vec![tick]));
    let pool = service.get_pools().get_pool(&public).unwrap();
    assert_eq!((pool.current_liquidity(), net_of(&pool, -60)), (100, 11));
    service.on_idle(false);
    let pool = service.get_pools().get_pool(&public).unwrap();
    assert_eq!((pool.current_liquidity(), net_of(&pool, -60), net_of(&pool, 60)), (130, 41, -30));
}

#[test]
fn a_reorganization_is_followed() {
    let (mut service, mut provider) = followed();
    let (public, on_chain) = (PoolId::from(keys()[0]), private(keys()[0]));
    let change = event_log(modify_liquidity_topic(), on_chain, &[-60, 60, 30, 0], 1);
    let swap = event_log(swap_topic(), on_chain, &[1, -2, 1 << 96, 130, 1, 6], 2);
    let updates = provider.advance(8, logs_of(vec![swap], vec![change]));
    service.on_events(updates, false);
    let pool = service.get_pools().get_pool(&public).unwrap();
    assert_eq!((pool.current_tick(), pool.current_liquidity()), (1, 130));
    // in the block that takes its place another position is opened
    let fresh = provider.backfill_blocks(&vec![BackfillChunk {
        swap_logs: vec![event_log(swap_topic(), on_chain, &[1, -2, 1 << 97, 170, 9, 6], 3)],
        modify_logs: vec![event_log(modify_liquidity_topic(), on_chain, &[-120, 60, 70, 0], 1)],
        controller_logs: vec![],
        blocks: vec![],
    }]);
    assert!(provider.can_handle_reorg());
    let progress = provider.handle_reorg(Ok(fresh));
    assert_eq!(progress.affected, vec![on_chain]);
    let price =
        Slot0Data { sqrt_price_x96: U160 { hi: 0, lo: 1 << 97 }, tick: 9, liquidity: 170 };
    let updates = PoolUpdateProvider::finish_reorg(progress, &vec![(on_chain, price)]);
    service.on_events(updates, false);
    let pool = service.get_pools().get_pool(&public).unwrap();
    assert_eq!((pool.current_tick(), pool.current_liquidity()), (9, 170));
    assert_eq!(pool.current_price().to_u256(), U256::from_u128(1 << 97));
    assert_eq!((net_of(&pool, -120), net_of(&pool, -60), net_of(&pool, 60)), (70, 0, -70));
}

#[test]
fn a_registry_is_made_by_adding_its_keys() {
    let made = UniswapPoolRegistry::from(keys());
    let mut added = UniswapPoolRegistry::default();
    for key in keys() {
        added.add_new_pool(key);
    }
    for key in keys() {
        let public = PoolId::from(key);
        assert_eq!(made.get(&public), Some(&key));
        assert_eq!(added.get(&public), Some(&key));
        assert_eq!(made.private_key_from_public(&public), Some(private(key)));
        // each private identifier leads to a public one that converts back
        let back = made.public_key_from_private(&private(key)).unwrap();
        assert_eq!(added.public_key_from_private(&private(key)), Some(back));
        assert_eq!(made.private_key_from_public(&back), Some(private(key)));
    }
    assert_eq!(made.pools().keys(), added.pools().keys());
    assert_eq!(made.public_keys(), added.public_keys());
}

#[test]
fn the_order_of_loaded_ticks_does_not_matter() {
    let tick = |tick: i32, liquidity_net: i128| TickData { tick, initialized: true, liquidity_net };
    let skipped = TickData { tick: 120, initialized: false, liquidity_net: 9 };
    let forward = vec![tick(-60, 5), tick(0, 6), skipped, tick(15360, -11)];
    let mut backward = forward.clone();
    backward.reverse();
    backward.push(tick(0, 6));
    let (ticks, bitmap) = apply_ticks(&forward, 60);
    let (other_ticks, other_bitmap) = apply_ticks(&backward, 60);
    assert_eq!(ticks, other_ticks);
    assert_eq!(bitmap, other_bitmap);
    assert_eq!(ticks.len(), 3);
    // no word without a bit: the last of the first word below, the first of two above
    assert_eq!(bitmap.len(), 3);
    assert_eq!(bitmap[&-1], U256 { l0: 0, l1: 0, l2: 0, l3: 1 << 63 });
    assert_eq!(bitmap[&0], U256::from_u128(1));
    assert_eq!(bitmap[&1], U256::from_u128(1));
}

#[test]
fn updates_are_held_back_while_something_is_loaded() {
    let mut service = service(true, false, false);
    assert!(service.on_events(vec![PoolUpdate::NewBlock(8)], true).is_empty());
    assert!(service.on_events(vec![PoolUpdate::NewBlock(9)], true).is_empty());
    assert!(service.on_idle(true).is_empty());
    assert_eq!(service.current_block(), 7);
    let actions = service.on_idle(false);
    assert_eq!(text(&actions), text(&[ServiceAction::Notify, ServiceAction::CheckTicks(9)]));
    assert_eq!(service.current_block(), 9);
    assert!(service.pending_updates.is_empty());
}

#[test]
fn a_channel_gets_every_update() {
    let mut service = service(true, true, true);
    let id = PoolId::from(keys()[0]);
    let actions = service.on_events(
        vec![
            PoolUpdate::NewBlock(8),
            PoolUpdate::from_fee_update(id, 8, 4, 5, 6),
            PoolUpdate::PoolRemoved { pool_id: id, block: 8 },
        ],
        false,
    );
    assert_eq!(
        text(&actions),
        text(&[
            ServiceAction::Send(PoolUpdate::NewBlock(8)),
            ServiceAction::Send(PoolUpdate::from_fee_update(id, 8, 4, 5, 6)),
            ServiceAction::Send(PoolUpdate::PoolRemoved { pool_id: id, block: 8 }),
            ServiceAction::UnsubscribeSlot0(id),
        ])
    );
    assert_eq!(service.current_block(), 8);
    // the block of the pools is left to whoever reads the channel
    assert_eq!(service.get_pools().get_block(), 7);
}

#[test]
fn a_channel_takes_up_configured_pools() {
    let mut service = service(true, false, true);
    let new = key(TOKEN_A, TOKEN_C, 5);
    let configured = || PoolUpdate::PoolConfigured {
        pool_key: new,
        pool_id: PoolId::from(new),
        block: 8,
        bundle_fee: 1,
        swap_fee: 2,
        protocol_fee: 3,
        tick_spacing: 60,
    };
    let actions = service.on_events(vec![configured()], false);
    assert_eq!(actions.len(), 3);
    assert_eq!(text(&actions[..1]), text(&[ServiceAction::Send(configured())]));
    assert!(matches!(
        actions[1],
        ServiceAction::LoadPool(load) if load.pool_id == PoolId::from(new)
    ));
    assert!(matches!(actions[2], ServiceAction::ShareRegistry));
    assert_eq!(service.current_pool_keys().len(), 4);
}

#[test]
fn prices_reach_the_pools() {
    let id = PoolId::from(keys()[0]);
    let update = Slot0Update {
        seq_id: 1,
        current_block: 2,
        angstrom_pool_id: id,
        uni_pool_id: private(keys()[0]),
        sqrt_price_x96: U160 { hi: 0, lo: 3 },
        liquidity: 4,
        tick: 5,
    };
    let mut direct = service(true, true, false);
    direct.slot0_update(update);
    assert_eq!(direct.get_pools().get_pool(&id).unwrap().current_tick(), 5);
    let later = Slot0Update { tick: 6, ..update };
    assert!(direct.on_slot0_updates(&vec![update, later]).is_empty());
    assert_eq!(direct.get_pools().get_pool(&id).unwrap().current_tick(), 6);
    let mut channel = service(true, true, true);
    let actions = channel.on_slot0_updates(&vec![update]);
    assert_eq!(
        text(&actions),
        text(&[ServiceAction::Send(PoolUpdate::Slot0Update(update))])
    );
    assert_eq!(channel.get_pools().get_pool(&id).unwrap().current_tick(), 0);
}

#[test]
fn a_dispatched_update_is_applied_or_sent() {
    let id = PoolId::from(keys()[0]);
    let mut direct = service(true, false, false);
    assert!(direct.dispatch_update(PoolUpdate::from_fee_update(id, 8, 4, 5, 6)).is_empty());
    assert_eq!(direct.get_pools().get_pool(&id).unwrap().swap_fee(), 5);
    let new = PoolUpdate::from_new_pool(id, TOKEN_A, TOKEN_B, 1, 2, 3, 60, 8);
    let actions = direct.dispatch_update(new);
    assert!(matches!(
        actions[..],
        [ServiceAction::LoadPool(load), ServiceAction::ShareRegistry]
            if load.pool_id == id && load.swap_fee == 2
    ));
}

#[test]
fn fixed_pools_disable_discovery() {
    let found = vec![PoolKeyWithFees {
        pool_key: key(TOKEN_A, TOKEN_C, 5),
        bundle_fee: 5,
        swap_fee: 6,
        protocol_fee: 7,
    }];
    let builder = PoolManagerServiceBuilder::new(ANGSTROM, CONTROLLER, MANAGER, 40);
    assert!(builder.discovers_pools());
    assert_eq!(builder.initial_pools(&found), found);
    let builder = builder.with_fixed_pools(keys());
    assert!(!builder.discovers_pools());
    let pools = builder.initial_pools(&found);
    assert_eq!(pools.iter().map(|p| p.pool_key).collect::<Vec<PoolKey>>(), keys());
    assert!(pools.iter().all(|p| (p.bundle_fee, p.swap_fee, p.protocol_fee) == (0, 0, 0)));
    // the service knows these and no others
    let service = builder.build(&found, UniswapPools::empty(41));
    assert_eq!(service.current_pool_keys(), keys());
    let builder = PoolManagerServiceBuilder::new(ANGSTROM, CONTROLLER, MANAGER, 40);
    let service = builder.build(&found, UniswapPools::empty(41));
    assert_eq!(service.current_pool_keys(), vec![found[0].pool_key]);
}

#[test]
fn the_builder_sets_the_service_up() {
    let builder = PoolManagerServiceBuilder::new(ANGSTROM, CONTROLLER, MANAGER, 40);
    assert!(builder.auto_pool_creation);
    assert!(!builder.is_bundle_mode && !builder.channel_mode);
    let builder = builder
        .with_initial_tick_range_size(33)
        .with_fixed_pools(keys())
        .with_auto_pool_creation(false)
        .with_bundle_mode(true)
        .with_event_stream()
        .with_slot0_stream()
        .with_channel();
    assert!(builder.has_event_stream && builder.has_slot0_stream && builder.channel_mode);
    assert_eq!(builder.fixed_pools.as_ref().unwrap().len(), 3);
    let factory = builder.factory();
    assert_eq!((factory.tick_band, factory.is_bundle_mode), (33, true));
    let loads = builder.initial_loads(&vec![], 55);
    assert_eq!(loads.len(), 3);
    assert_eq!(loads[2].internal_pool_id, private(keys()[2]));
    assert!(loads.iter().all(|l| (l.tick_band, l.block, l.swap_fee) == (33, 55, 0)));
    // it stands at the block that the pools were loaded for
    let service = builder.build(&vec![], UniswapPools::empty(55));
    assert_eq!(service.current_block(), 55);
    assert!(!service.auto_pool_creation && service.has_slot0_stream && service.channel_mode);
    assert_eq!(service.current_pool_keys().len(), 3);
    let mut none = NoOpEventStream::default();
    none.start_tracking_pool(PoolId::from(keys()[0]));
    none.stop_tracking_pool(PoolId::from(keys()[0]));
    none.set_pool_registry(UniswapPoolRegistry::new());
    assert_eq!(none, NoOpEventStream);
}
