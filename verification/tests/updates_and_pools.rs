//! Updates, their queue and their order, and the pools that they change.
use std::cmp::Ordering;
use std::collections::HashMap;
use uni_v4::arith::get_sqrt_ratio_at_tick;
use uni_v4::id_collections::{PoolIdMap, PoolIdSet};
use uni_v4::liquidity_base::BaselineLiquidity;
use uni_v4::pool_state::{BaselinePoolState, FeeConfiguration};
use uni_v4::shared_pools::{PoolTable, UniswapPools};
use uni_v4::sorting::sort_updates;
use uni_v4::sqrt_price::SqrtPriceX96;
use uni_v4::tick_info::TickInfo;
use uni_v4::traits::{PoolUpdateDelivery, PoolUpdateDeliveryExt};
use uni_v4::updates::{
    copy_updates, ModifyLiquidityEventData, PoolUpdate, PoolUpdateQueue, Slot0Data, Slot0Update,
    SwapEventData,
};
use uni_v4::words::{i128_to_i256, Address, PoolId, B256, U160, U256};

fn id(n: u128) -> PoolId {
    B256 { word: U256::from_u128(n) }
}

fn state(liquidity: u128) -> BaselinePoolState {
    let price = SqrtPriceX96::from_u256(get_sqrt_ratio_at_tick(0).unwrap());
    BaselinePoolState::new(
        BaselineLiquidity::new(60, 0, price, liquidity, HashMap::new(), HashMap::new()),
        1,
        FeeConfiguration { is_bundle_mode: false, bundle_fee: 1, swap_fee: 2, protocol_fee: 3 },
    )
}

fn swap(pool: PoolId, tx_index: u64, log_index: u64, tick: i32, liquidity: u128) -> PoolUpdate {
    PoolUpdate::from_swap(
        pool,
        5,
        tx_index,
        log_index,
        SwapEventData {
            sender: Address::zero(),
            amount0: 0,
            amount1: 0,
            sqrt_price_x96: U160 { hi: 0, lo: 1000 + liquidity },
            liquidity,
            tick,
            fee: 3000,
        },
    )
}

fn change(pool: PoolId, tx_index: u64, log_index: u64, delta: i128) -> PoolUpdate {
    PoolUpdate::from_liquidity(
        pool,
        5,
        tx_index,
        log_index,
        ModifyLiquidityEventData {
            sender: Address::zero(),
            tick_lower: -60,
            tick_upper: 60,
            liquidity_delta: i128_to_i256(delta),
            salt: id(0),
        },
    )
}

fn text(updates: &[PoolUpdate]) -> String {
    format!("{:?}", updates)
}

#[test]
fn updates_are_ordered_by_transaction_and_log() {
    let a = swap(id(1), 0, 9, 0, 0);
    let b = change(id(1), 1, 2, 0);
    let c = swap(id(1), 1, 3, 0, 0);
    let block = PoolUpdate::NewBlock(3);
    assert_eq!(a.position(), (0, 9));
    assert_eq!(block.position(), (u64::MAX, u64::MAX));
    assert_eq!(a.sort(&b), Ordering::Less);
    assert_eq!(c.sort(&b), Ordering::Greater);
    assert_eq!(b.sort(&b), Ordering::Equal);
    assert_eq!(block.sort(&c), Ordering::Greater);
    assert_eq!(block.sort(&PoolUpdate::NewBlock(8)), Ordering::Equal);
}

#[test]
fn sorting_is_stable() {
    let updates = vec![
        PoolUpdate::NewBlock(1),
        swap(id(1), 2, 0, 0, 0),
        PoolUpdate::NewBlock(2),
        change(id(2), 0, 5, 1),
        change(id(3), 0, 5, 1),
        swap(id(4), 0, 4, 0, 0),
    ];
    let expected = vec![
        swap(id(4), 0, 4, 0, 0),
        change(id(2), 0, 5, 1),
        change(id(3), 0, 5, 1),
        swap(id(1), 2, 0, 0, 0),
        PoolUpdate::NewBlock(1),
        PoolUpdate::NewBlock(2),
    ];
    assert_eq!(text(&sort_updates(updates)), text(&expected));
    assert!(sort_updates(vec![]).is_empty());
}

#[test]
fn copies_say_the_same() {
    let updates = vec![
        PoolUpdate::NewPoolState { pool_id: id(1), state: state(7) },
        PoolUpdate::NewTicks {
            pool_id: id(2),
            ticks: HashMap::from([(5, TickInfo { liquidity_net: 1, initialized: true })]),
            tick_bitmap: HashMap::from([(0, U256::from_u128(32))]),
        },
        PoolUpdate::PoolRemoved { pool_id: id(3), block: 4 },
        PoolUpdate::from_new_pool(id(4), Address::zero(), Address::zero(), 1, 2, 3, 60, 9),
        PoolUpdate::from_fee_update(id(5), 6, 7, 8, 9),
    ];
    let copies = copy_updates(&updates);
    assert_eq!(text(&copies), text(&updates));
    assert_eq!(text(&[updates[2].clone()]), text(&updates[2..3]));
}

#[test]
fn the_queue_is_first_in_first_out() {
    let mut queue = PoolUpdateQueue::new();
    assert!(queue.is_empty());
    queue.push(swap(id(1), 3, 0, 0, 0));
    queue.push(PoolUpdate::NewBlock(10));
    queue.extend(vec![
        PoolUpdate::Reorg { from_block: 1, to_block: 2 },
        PoolUpdate::from_new_pool(id(4), Address::zero(), Address::zero(), 1, 2, 3, 60, 9),
        PoolUpdate::PoolRemoved { pool_id: id(5), block: 6 },
        change(id(7), 1, 1, 4),
        PoolUpdate::from_fee_update(id(8), 6, 7, 8, 9),
        PoolUpdate::UpdatedSlot0 {
            pool_id: id(9),
            data: Slot0Data { sqrt_price_x96: U160 { hi: 0, lo: 4 }, tick: 5, liquidity: 6 },
        },
    ]);
    assert_eq!(queue.len(), 8);
    // a delivery of another kind waits for the front of the queue
    assert_eq!(queue.get_new_block(), None);
    let mut seen = Vec::new();
    while let Some(update) = queue.next_update() {
        seen.push(update);
    }
    assert_eq!(seen.len(), 8);
    assert!(matches!(seen[0], PoolUpdate::SwapEvent { tx_index: 3, .. }));
    assert!(matches!(seen[1], PoolUpdate::NewBlock(10)));
    assert!(matches!(seen[2], PoolUpdate::Reorg { from_block: 1, to_block: 2 }));
    assert!(matches!(seen[3], PoolUpdate::NewPool { tick_spacing: 60, block: 9, .. }));
    assert!(matches!(seen[4], PoolUpdate::PoolRemoved { block: 6, .. }));
    assert!(matches!(seen[5], PoolUpdate::LiquidityEvent { log_index: 1, .. }));
    assert!(matches!(seen[6], PoolUpdate::FeeUpdate { protocol_fee: 9, .. }));
    assert!(matches!(seen[7], PoolUpdate::UpdatedSlot0 { .. }));
    queue.push(PoolUpdate::NewBlock(1));
    queue.clear();
    assert!(queue.next_update().is_none());
    assert!(PoolUpdateQueue::default().is_empty());
}

#[test]
fn maps_and_sets_of_identifiers() {
    let mut map: PoolIdMap<u32> = PoolIdMap::new();
    map.insert(id(1), 10);
    map.insert(id(2), 20);
    map.insert(id(1), 11);
    assert_eq!(map.len(), 2);
    assert_eq!(map.get(&id(1)), Some(&11));
    assert_eq!(map.entry(1), (id(2), &20));
    assert_eq!(map.keys(), vec![id(1), id(2)]);
    let copy = map.clone();
    assert_eq!(map.remove(&id(1)), Some(11));
    assert_eq!(map.remove(&id(1)), None);
    assert!(!map.contains_key(&id(1)));
    assert!(copy.contains_key(&id(1)));
    let mut set = PoolIdSet::new();
    set.insert(id(3));
    set.insert(id(3));
    assert_eq!(set.to_vec(), vec![id(3)]);
    let kept = set.clone();
    set.remove(&id(3));
    assert!(set.is_empty() && kept.contains(&id(3)));
}

#[test]
fn pools_are_kept_by_identifier() {
    let table: PoolTable = PoolTable::new();
    table.insert((1, 0, 0, 0), state(4));
    let mut pools = UniswapPools::new(table, 12);
    assert_eq!(pools.get_block(), 12);
    assert_eq!(pools.get_pool(&id(1)).unwrap().current_liquidity(), 4);
    assert!(pools.get_pool(&id(2)).is_none());
    pools.insert(id(2), state(5));
    pools.insert(id(2), state(6));
    let mut ids = pools.pool_ids();
    ids.sort_by_key(|i| i.word.l0);
    assert_eq!(ids, vec![id(1), id(2)]);
    let mut all: Vec<(u64, u128)> =
        pools.get_pools().iter().map(|(i, s)| (i.word.l0, s.current_liquidity())).collect();
    all.sort();
    assert_eq!(all, vec![(1, 4), (2, 6)]);
    assert_eq!(pools.remove(&id(1)).unwrap().current_liquidity(), 4);
    assert!(pools.remove(&id(1)).is_none());
    pools.fee_update(&id(2), 7, 8, 9);
    pools.fee_update(&id(1), 7, 8, 9);
    let fees = *pools.get_pool(&id(2)).unwrap().fee_config();
    assert_eq!((fees.bundle_fee, fees.swap_fee, fees.protocol_fee), (7, 8, 9));
    assert!(UniswapPools::empty(3).pool_ids().is_empty());
}

#[test]
fn updates_change_the_pools_that_they_name() {
    let mut pools = UniswapPools::empty(1);
    pools.insert(id(1), state(100));
    pools.insert(id(2), state(200));
    // the swap comes after the change, whatever the order they arrive in
    let notify = pools.update_pools(vec![
        swap(id(1), 4, 0, 61, 77),
        change(id(1), 3, 0, 50),
        swap(id(3), 1, 1, 9, 9),
    ]);
    assert!(!notify);
    let first = pools.get_pool(&id(1)).unwrap();
    assert_eq!((first.current_tick(), first.current_liquidity()), (61, 77));
    assert_eq!(first.current_price().to_u256(), U256::from_u128(1077));
    assert_eq!(first.liquidity.initialized_ticks[&-60].liquidity_net, 50);
    // a pool that no update names stays, an unknown one is not made up
    assert_eq!(pools.get_pool(&id(2)).unwrap().current_liquidity(), 200);
    assert!(pools.get_pool(&id(3)).is_none());
    // blocks and reorganizations move the block and notify
    assert!(pools.update_pools(vec![PoolUpdate::NewBlock(8)]));
    assert_eq!(pools.get_block(), 8);
    assert!(pools.update_pools(vec![PoolUpdate::Reorg { from_block: 2, to_block: 7 }]));
    assert_eq!(pools.get_block(), 7);
    assert!(!pools.update_pools(vec![]));
}

#[test]
fn every_kind_of_update_is_applied() {
    let mut pools = UniswapPools::empty(1);
    pools.update_pools(vec![PoolUpdate::NewPoolState { pool_id: id(1), state: state(100) }]);
    pools.update_pools(vec![
        PoolUpdate::from_fee_update(id(1), 1, 11, 12, 13),
        PoolUpdate::UpdatedSlot0 {
            pool_id: id(1),
            data: Slot0Data { sqrt_price_x96: U160 { hi: 0, lo: 9 }, tick: 2, liquidity: 3 },
        },
        PoolUpdate::NewTicks {
            pool_id: id(1),
            ticks: HashMap::from([(60, TickInfo { liquidity_net: 4, initialized: true })]),
            tick_bitmap: HashMap::from([(0, U256::from_u128(2))]),
        },
    ]);
    let pool = pools.get_pool(&id(1)).unwrap();
    assert_eq!((pool.bundle_fee(), pool.swap_fee(), pool.protocol_fee()), (11, 12, 13));
    assert_eq!((pool.current_tick(), pool.current_liquidity()), (2, 3));
    assert_eq!(pool.liquidity.initialized_ticks[&60].liquidity_net, 4);
    assert_eq!(pool.liquidity.tick_bitmap[&0], U256::from_u128(2));
    let update = Slot0Update {
        seq_id: 1,
        current_block: 2,
        angstrom_pool_id: id(1),
        uni_pool_id: id(50),
        sqrt_price_x96: U160 { hi: 0, lo: 21 },
        liquidity: 22,
        tick: 23,
    };
    pools.slot0_update(update);
    let pool = pools.get_pool(&id(1)).unwrap();
    assert_eq!((pool.current_tick(), pool.current_liquidity()), (23, 22));
    pools.update_pools(vec![PoolUpdate::Slot0Update(Slot0Update { tick: 24, ..update })]);
    assert_eq!(pools.get_pool(&id(1)).unwrap().current_tick(), 24);
    // these say nothing of the state of a pool
    pools.update_pools(vec![PoolUpdate::PoolRemoved { pool_id: id(1), block: 1 }]);
    assert!(pools.get_pool(&id(1)).is_some());
}

#[test]
fn a_change_and_its_opposite_cancel_out() {
    let mut pools = UniswapPools::empty(1);
    pools.insert(id(1), state(100));
    pools.update_pools(vec![change(id(1), 0, 0, 40)]);
    assert_eq!(pools.get_pool(&id(1)).unwrap().current_liquidity(), 140);
    pools.update_pools(vec![change(id(1), 0, 0, -40)]);
    let pool = pools.get_pool(&id(1)).unwrap();
    assert_eq!(pool.current_liquidity(), 100);
    assert_eq!(pool.liquidity.initialized_ticks[&60].liquidity_net, 0);
}

#[test]
fn pools_drain_a_source() {
    let mut pools = UniswapPools::empty(1);
    pools.insert(id(1), state(100));
    let mut queue = PoolUpdateQueue::new();
    queue.push(swap(id(1), 0, 0, 5, 6));
    queue.push(PoolUpdate::NewBlock(2));
    queue.push(PoolUpdate::NewBlock(3));
    assert!(pools.update_single_from_source(&mut queue));
    assert_eq!(queue.len(), 2);
    assert_eq!(pools.get_pool(&id(1)).unwrap().current_tick(), 5);
    assert!(pools.update_from_source(&mut queue));
    assert!(queue.is_empty());
    assert_eq!(pools.get_block(), 3);
    assert!(!pools.update_from_source(&mut queue));
    assert!(!pools.update_single_from_source(&mut queue));
    // whoever waits for a block is told of one
    queue.push(swap(id(1), 0, 0, 7, 6));
    queue.push(PoolUpdate::NewBlock(4));
    assert_eq!(pools.update_next_from_source(&mut queue), Some(false));
    assert_eq!(pools.get_pool(&id(1)).unwrap().current_tick(), 7);
    assert_eq!(pools.update_next_from_source(&mut queue), Some(true));
    assert_eq!(pools.get_block(), 4);
    assert_eq!(pools.update_next_from_source(&mut queue), None);
}

#[test]
fn pools_that_agree_stay_in_agreement() {
    let updates = vec![change(id(1), 0, 0, 40), swap(id(1), 0, 1, -61, 50), change(id(1), 1, 0, 9)];
    let mut a = UniswapPools::empty(1);
    let mut b = UniswapPools::empty(1);
    a.insert(id(1), state(100));
    let mut known = state(100);
    // the other one knows of a tick without net liquidity
    known
        .liquidity
        .initialized_ticks
        .insert(-60, TickInfo { liquidity_net: 0, initialized: true });
    b.insert(id(1), known);
    a.update_pools(copy_updates(&updates));
    b.update_pools(updates);
    let (x, y) = (a.get_pool(&id(1)).unwrap(), b.get_pool(&id(1)).unwrap());
    assert_eq!(x.current_liquidity(), y.current_liquidity());
    assert_eq!(x.current_tick(), y.current_tick());
    assert_eq!(x.liquidity.initialized_ticks, y.liquidity.initialized_ticks);
}
