//! Loading the states of pools with their ticks.
use std::collections::HashMap;

use vstd::prelude::*;

use crate::id_collections::{key_index, map_of, map_of_entry, PoolIdMap};
use crate::liquidity_base::{
    compressed_has_place, has_place, ticks_are_marked, BaselineLiquidity, LiquidityView,
};
use crate::pool_key::{pool_id_of, private_key_of, PoolKey};
use crate::pool_registry::{
    is_consistent, is_known_key, is_private_id, with_pool, without_pool, RegistryView,
    UniswapPoolRegistry,
};
use crate::pool_state::{BaselinePoolState, FeeConfiguration, PoolStateView};
use crate::sqrt_price::SqrtPriceX96;
use crate::tick_bitmap::{
    flip_tick_if_not_init, tick_bit, trunc_div, with_tick_bit, with_tick_bit_sets_that_bit,
    word_bit, word_is_its_bits, word_position, zero_word_has_no_bit,
};
use crate::tick_info::TickInfo;
use crate::words::{Address, PoolId, U160, U256};

verus! {

broadcast use vstd::std_specs::hash::group_hash_axioms;

/// How many ticks are loaded on each side of the current one, unless told
/// otherwise.
pub const INITIAL_TICKS_PER_SIDE: u16 = 400;

/// How many ticks one request asks for at most.
pub const TICKS_PER_BATCH: u16 = 25;

/// Why a pool could not be loaded.
#[derive(Debug)]
pub enum BaselinePoolFactoryError {
    /// Pool data loading error
    PoolDataLoading(String),
    /// Provider error
    Provider(String),
    /// Pool initialization error
    Initialization(String),
}

/// What the factory has loaded.
#[derive(Debug)]
pub enum UpdateMessage {
    NewTicks(PoolId, HashMap<i32, TickInfo>, HashMap<i16, U256>),
    NewPool(PoolId, BaselinePoolState),
}

/// A tick as it was loaded.
#[derive(Clone, Copy, Debug, PartialEq, Eq, Structural)]
pub struct TickData {
    pub tick: i32,
    pub initialized: bool,
    pub liquidity_net: i128,
}

/// A pool as it was loaded.
#[derive(Clone, Copy, Debug, PartialEq, Eq, Structural)]
pub struct PoolData {
    pub sqrt_price: U160,
    pub tick: i32,
    pub tick_spacing: i32,
    pub liquidity: u128,
}

/// A request to load ticks: so many from a start in one direction.
#[derive(Clone, Copy, Debug, PartialEq, Eq, Structural)]
pub struct TickBatch {
    pub tick_start: i32,
    pub zero_for_one: bool,
    pub num_ticks: u16,
}

/// A request to load a pool, with the given number of ticks on each side.
#[derive(Clone, Copy, Debug, PartialEq, Eq, Structural)]
pub struct PoolLoad {
    pub pool_id: PoolId,
    pub internal_pool_id: PoolId,
    pub tick_band: u16,
    pub block: u64,
    pub bundle_fee: u32,
    pub swap_fee: u32,
    pub protocol_fee: u32,
}

/// A request to load more ticks of a pool.
#[derive(Clone, Copy, Debug, PartialEq, Eq, Structural)]
pub struct TickLoad {
    pub pool_id: PoolId,
    pub internal_pool_id: PoolId,
    pub batch: TickBatch,
    pub tick_spacing: i32,
    pub block: Option<u64>,
}

/// The ticks among those that were loaded, the initialized ones only. Of a tick
/// that was loaded more than once, the last stands.
pub open spec fn ticks_of(fetched: Seq<TickData>) -> Map<i32, TickInfo>
    decreases fetched.len(),
{
    if fetched.len() == 0 {
        Map::empty()
    } else {
        let rest = ticks_of(fetched.drop_last());
        let last = fetched.last();
        if last.initialized {
            rest.insert(
                last.tick,
                TickInfo { liquidity_net: last.liquidity_net, initialized: true },
            )
        } else {
            rest
        }
    }
}

/// The bitmap of the initialized ticks among those that were loaded.
pub open spec fn bitmap_of(fetched: Seq<TickData>, tick_spacing: int) -> Map<i16, U256>
    decreases fetched.len(),
{
    if fetched.len() == 0 {
        Map::empty()
    } else {
        let rest = bitmap_of(fetched.drop_last(), tick_spacing);
        if fetched.last().initialized {
            with_tick_bit(rest, trunc_div(fetched.last().tick as int, tick_spacing))
        } else {
            rest
        }
    }
}

/// The map of loaded ticks holds exactly the initialized ones.
pub proof fn ticks_of_are_initialized(fetched: Seq<TickData>, tick: i32)
    ensures
        ticks_of(fetched).contains_key(tick) <==> exists|i: int|
            0 <= i < fetched.len() && (#[trigger] fetched[i]).initialized && fetched[i].tick
                == tick,
        ticks_of(fetched).contains_key(tick) ==> ticks_of(fetched)[tick].initialized,
    decreases fetched.len(),
{
    if fetched.len() != 0 {
        let front = fetched.drop_last();
        ticks_of_are_initialized(front, tick);
        if exists|i: int|
            0 <= i < front.len() && (#[trigger] front[i]).initialized && front[i].tick == tick {
            let i = choose|i: int|
                0 <= i < front.len() && (#[trigger] front[i]).initialized && front[i].tick == tick;
            assert(fetched[i] == front[i]);
        }
        if exists|i: int|
            0 <= i < fetched.len() && (#[trigger] fetched[i]).initialized && fetched[i].tick
                == tick {
            let i = choose|i: int|
                0 <= i < fetched.len() && (#[trigger] fetched[i]).initialized && fetched[i].tick
                    == tick;
            if i < front.len() {
                assert(front[i] == fetched[i]);
            }
        }
        assert(fetched[fetched.len() - 1] == fetched.last());
    }
}

/// The bitmap of loaded ticks marks exactly the initialized ones.
pub proof fn bitmap_marks_initialized(fetched: Seq<TickData>, tick_spacing: int, compressed: int)
    requires
        tick_spacing > 0,
        -0x80_0000 <= compressed < 0x80_0000,
        forall|i: int| 0 <= i < fetched.len() ==> has_place((#[trigger] fetched[i]).tick),
    ensures
        tick_bit(bitmap_of(fetched, tick_spacing), compressed) <==> exists|i: int|
            0 <= i < fetched.len() && (#[trigger] fetched[i]).initialized && trunc_div(
                fetched[i].tick as int,
                tick_spacing,
            ) == compressed,
    decreases fetched.len(),
{
    if fetched.len() != 0 {
        let front = fetched.drop_last();
        let last = fetched[fetched.len() - 1];
        assert forall|i: int| 0 <= i < front.len() implies has_place((#[trigger] front[i]).tick) by {
            assert(front[i] == fetched[i]);
        }
        bitmap_marks_initialized(front, tick_spacing, compressed);
        assert(has_place(last.tick));
        compressed_has_place(last.tick as int, tick_spacing);
        with_tick_bit_sets_that_bit(
            bitmap_of(front, tick_spacing),
            trunc_div(last.tick as int, tick_spacing),
            compressed,
        );
        if exists|i: int|
            0 <= i < front.len() && (#[trigger] front[i]).initialized && trunc_div(
                front[i].tick as int,
                tick_spacing,
            ) == compressed {
            let i = choose|i: int|
                0 <= i < front.len() && (#[trigger] front[i]).initialized && trunc_div(
                    front[i].tick as int,
                    tick_spacing,
                ) == compressed;
            assert(fetched[i] == front[i]);
        }
        if exists|i: int|
            0 <= i < fetched.len() && (#[trigger] fetched[i]).initialized && trunc_div(
                fetched[i].tick as int,
                tick_spacing,
            ) == compressed {
            let i = choose|i: int|
                0 <= i < fetched.len() && (#[trigger] fetched[i]).initialized && trunc_div(
                    fetched[i].tick as int,
                    tick_spacing,
                ) == compressed;
            if i < front.len() {
                assert(front[i] == fetched[i]);
            }
        }
    }
}

/// The words that the bitmap of loaded ticks holds are those of initialized
/// ticks.
proof fn bitmap_words_are_of_ticks(fetched: Seq<TickData>, tick_spacing: int, pos: i16)
    ensures
        bitmap_of(fetched, tick_spacing).contains_key(pos) <==> exists|i: int|
            0 <= i < fetched.len() && (#[trigger] fetched[i]).initialized && word_position(
                trunc_div(fetched[i].tick as int, tick_spacing),
            ) == pos,
    decreases fetched.len(),
{
    if fetched.len() != 0 {
        let front = fetched.drop_last();
        let last = fetched[fetched.len() - 1];
        bitmap_words_are_of_ticks(front, tick_spacing, pos);
        if bitmap_of(front, tick_spacing).contains_key(pos) {
            let i = choose|i: int|
                0 <= i < front.len() && (#[trigger] front[i]).initialized && word_position(
                    trunc_div(front[i].tick as int, tick_spacing),
                ) == pos;
            assert(fetched[i] == front[i]);
        }
        if exists|i: int|
            0 <= i < fetched.len() && (#[trigger] fetched[i]).initialized && word_position(
                trunc_div(fetched[i].tick as int, tick_spacing),
            ) == pos {
            let i = choose|i: int|
                0 <= i < fetched.len() && (#[trigger] fetched[i]).initialized && word_position(
                    trunc_div(fetched[i].tick as int, tick_spacing),
                ) == pos;
            if i < front.len() {
                assert(front[i] == fetched[i]);
            }
        }
    }
}

/// No word of the bitmap of loaded ticks is zero.
pub proof fn bitmap_has_no_zero_word(fetched: Seq<TickData>, tick_spacing: int, pos: i16)
    requires
        tick_spacing > 0,
        forall|i: int| 0 <= i < fetched.len() ==> has_place((#[trigger] fetched[i]).tick),
        bitmap_of(fetched, tick_spacing).contains_key(pos),
    ensures
        bitmap_of(fetched, tick_spacing)[pos] != (U256 { l0: 0, l1: 0, l2: 0, l3: 0 }),
{
    bitmap_words_are_of_ticks(fetched, tick_spacing, pos);
    let i = choose|i: int|
        0 <= i < fetched.len() && (#[trigger] fetched[i]).initialized && word_position(
            trunc_div(fetched[i].tick as int, tick_spacing),
        ) == pos;
    let compressed = trunc_div(fetched[i].tick as int, tick_spacing);
    assert(has_place(fetched[i].tick));
    compressed_has_place(fetched[i].tick as int, tick_spacing);
    bitmap_marks_initialized(fetched, tick_spacing, compressed);
    zero_word_has_no_bit(compressed % 256);
}

/// The quotient of a multiple of the tick spacing leads back to it.
proof fn multiple_is_its_quotient(tick: int, tick_spacing: int)
    requires
        tick_spacing > 0,
        tick % tick_spacing == 0,
    ensures
        trunc_div(tick, tick_spacing) * tick_spacing == tick,
{
    let n = tick / tick_spacing;
    vstd::arithmetic::div_mod::lemma_fundamental_div_mod(tick, tick_spacing);
    assert(tick == n * tick_spacing) by (nonlinear_arith)
        requires
            tick == tick_spacing * n,
    ;
    if tick < 0 {
        assert(-tick == (-n) * tick_spacing) by (nonlinear_arith)
            requires
                tick == n * tick_spacing,
        ;
        vstd::arithmetic::div_mod::lemma_div_by_multiple(-n, tick_spacing);
        assert(trunc_div(tick, tick_spacing) == n);
    }
}

/// The bitmap of loaded ticks has the bit of a compressed tick set if and only
/// if that tick is among the ticks, where all are multiples of the spacing.
pub proof fn bitmap_and_ticks_agree(fetched: Seq<TickData>, tick_spacing: int, compressed: int)
    requires
        tick_spacing > 0,
        -0x80_0000 <= compressed < 0x80_0000,
        forall|i: int|
            0 <= i < fetched.len() ==> has_place((#[trigger] fetched[i]).tick)
                && fetched[i].tick as int % tick_spacing == 0,
    ensures
        tick_bit(bitmap_of(fetched, tick_spacing), compressed) <==> exists|t: i32| #[trigger]
            ticks_of(fetched).contains_key(t) && t == compressed * tick_spacing,
{
    bitmap_marks_initialized(fetched, tick_spacing, compressed);
    if tick_bit(bitmap_of(fetched, tick_spacing), compressed) {
        let i = choose|i: int|
            0 <= i < fetched.len() && (#[trigger] fetched[i]).initialized && trunc_div(
                fetched[i].tick as int,
                tick_spacing,
            ) == compressed;
        ticks_of_are_initialized(fetched, fetched[i].tick);
        multiple_is_its_quotient(fetched[i].tick as int, tick_spacing);
        assert(ticks_of(fetched).contains_key(fetched[i].tick));
    }
    if exists|t: i32| #[trigger]
        ticks_of(fetched).contains_key(t) && t == compressed * tick_spacing {
        let t = choose|t: i32| #[trigger]
            ticks_of(fetched).contains_key(t) && t == compressed * tick_spacing;
        ticks_of_are_initialized(fetched, t);
        let i = choose|i: int|
            0 <= i < fetched.len() && (#[trigger] fetched[i]).initialized && fetched[i].tick == t;
        multiple_is_its_quotient(t as int, tick_spacing);
        let quotient = trunc_div(t as int, tick_spacing);
        assert(quotient == compressed) by (nonlinear_arith)
            requires
                quotient * tick_spacing == compressed * tick_spacing,
                tick_spacing > 0,
        ;
    }
}

/// Whether the loaded data say one thing of each initialized tick.
pub open spec fn one_entry_per_tick(fetched: Seq<TickData>) -> bool {
    forall|i: int, j: int|
        0 <= i < fetched.len() && 0 <= j < fetched.len() && (#[trigger] fetched[i]).initialized
            && (#[trigger] fetched[j]).initialized && fetched[i].tick == fetched[j].tick
            ==> fetched[i].liquidity_net == fetched[j].liquidity_net
}

/// A loaded tick is known with the liquidity that the data give for it.
pub proof fn loaded_tick_has_its_net(fetched: Seq<TickData>, k: int)
    requires
        one_entry_per_tick(fetched),
        0 <= k < fetched.len(),
        fetched[k].initialized,
    ensures
        ticks_of(fetched).contains_key(fetched[k].tick),
        ticks_of(fetched)[fetched[k].tick] == (TickInfo {
            liquidity_net: fetched[k].liquidity_net,
            initialized: true,
        }),
    decreases fetched.len(),
{
    let front = fetched.drop_last();
    let last = fetched[fetched.len() - 1];
    if last.initialized && last.tick == fetched[k].tick {
        assert(last.liquidity_net == fetched[k].liquidity_net);
    } else {
        assert(front[k] == fetched[k]);
        assert forall|i: int, j: int|
            0 <= i < front.len() && 0 <= j < front.len() && (#[trigger] front[i]).initialized && (
            #[trigger] front[j]).initialized && front[i].tick
                == front[j].tick implies front[i].liquidity_net == front[j].liquidity_net by {
            assert(front[i] == fetched[i] && front[j] == fetched[j]);
        }
        loaded_tick_has_its_net(front, k);
    }
}

/// The ticks of one load are known to another of the same data.
proof fn ticks_of_same_data(a: Seq<TickData>, b: Seq<TickData>, t: i32)
    requires
        one_entry_per_tick(a),
        one_entry_per_tick(b),
        forall|x: TickData| #[trigger] a.contains(x) ==> b.contains(x),
        ticks_of(a).contains_key(t),
    ensures
        ticks_of(b).contains_key(t),
        ticks_of(b)[t] == ticks_of(a)[t],
{
    ticks_of_are_initialized(a, t);
    let i = choose|i: int|
        0 <= i < a.len() && (#[trigger] a[i]).initialized && a[i].tick == t;
    assert(a.contains(a[i]));
    let j = choose|j: int| 0 <= j < b.len() && b[j] == a[i];
    loaded_tick_has_its_net(a, i);
    loaded_tick_has_its_net(b, j);
}

/// The marks of one load are those of another of the same data.
proof fn bitmap_of_same_data(
    a: Seq<TickData>,
    b: Seq<TickData>,
    tick_spacing: int,
    pos: i16,
    compressed: int,
)
    requires
        tick_spacing > 0,
        -0x80_0000 <= compressed < 0x80_0000,
        forall|i: int| 0 <= i < a.len() ==> has_place((#[trigger] a[i]).tick),
        forall|i: int| 0 <= i < b.len() ==> has_place((#[trigger] b[i]).tick),
        forall|x: TickData| #[trigger] a.contains(x) ==> b.contains(x),
    ensures
        bitmap_of(a, tick_spacing).contains_key(pos) ==> bitmap_of(b, tick_spacing).contains_key(
            pos,
        ),
        tick_bit(bitmap_of(a, tick_spacing), compressed) ==> tick_bit(
            bitmap_of(b, tick_spacing),
            compressed,
        ),
{
    bitmap_words_are_of_ticks(a, tick_spacing, pos);
    bitmap_words_are_of_ticks(b, tick_spacing, pos);
    bitmap_marks_initialized(a, tick_spacing, compressed);
    bitmap_marks_initialized(b, tick_spacing, compressed);
    if bitmap_of(a, tick_spacing).contains_key(pos) {
        let i = choose|i: int|
            0 <= i < a.len() && (#[trigger] a[i]).initialized && word_position(
                trunc_div(a[i].tick as int, tick_spacing),
            ) == pos;
        assert(a.contains(a[i]));
        let j = choose|j: int| 0 <= j < b.len() && b[j] == a[i];
        assert(b[j].initialized);
    }
    if tick_bit(bitmap_of(a, tick_spacing), compressed) {
        let i = choose|i: int|
            0 <= i < a.len() && (#[trigger] a[i]).initialized && trunc_div(
                a[i].tick as int,
                tick_spacing,
            ) == compressed;
        assert(a.contains(a[i]));
        let j = choose|j: int| 0 <= j < b.len() && b[j] == a[i];
        assert(b[j].initialized);
    }
}

/// The order in which ticks were loaded, and how often each was, does not
/// matter: the same data give the same ticks and the same bitmap.
pub proof fn order_of_loaded_ticks_does_not_matter(
    a: Seq<TickData>,
    b: Seq<TickData>,
    tick_spacing: int,
)
    requires
        tick_spacing > 0,
        forall|i: int| 0 <= i < a.len() ==> has_place((#[trigger] a[i]).tick),
        one_entry_per_tick(a),
        forall|x: TickData| #[trigger] a.contains(x) <==> b.contains(x),
    ensures
        ticks_of(a) == ticks_of(b),
        bitmap_of(a, tick_spacing) == bitmap_of(b, tick_spacing),
{
    assert forall|i: int| 0 <= i < b.len() implies has_place((#[trigger] b[i]).tick) by {
        assert(b.contains(b[i]));
        assert(a.contains(b[i]));
        let k = choose|k: int| 0 <= k < a.len() && a[k] == b[i];
        assert(has_place(a[k].tick));
    }
    assert forall|i: int, j: int|
        0 <= i < b.len() && 0 <= j < b.len() && (#[trigger] b[i]).initialized && (
        #[trigger] b[j]).initialized && b[i].tick == b[j].tick implies b[i].liquidity_net
        == b[j].liquidity_net by {
        assert(b.contains(b[i]) && b.contains(b[j]));
        assert(a.contains(b[i]) && a.contains(b[j]));
        let k = choose|k: int| 0 <= k < a.len() && a[k] == b[i];
        let l = choose|l: int| 0 <= l < a.len() && a[l] == b[j];
        assert(a[k].liquidity_net == a[l].liquidity_net);
    }
    assert forall|t: i32| #[trigger] ticks_of(a).contains_key(t) implies ticks_of(b).contains_key(
        t,
    ) && ticks_of(a)[t] == ticks_of(b)[t] by {
        ticks_of_same_data(a, b, t);
    }
    assert forall|t: i32| #[trigger] ticks_of(b).contains_key(t) implies ticks_of(a).contains_key(
        t,
    ) by {
        ticks_of_same_data(b, a, t);
    }
    assert(ticks_of(a) =~= ticks_of(b));
    let first = bitmap_of(a, tick_spacing);
    let second = bitmap_of(b, tick_spacing);
    assert forall|pos: i16| #[trigger] first.contains_key(pos) == second.contains_key(pos) by {
        bitmap_of_same_data(a, b, tick_spacing, pos, 0);
        bitmap_of_same_data(b, a, tick_spacing, pos, 0);
    }
    assert forall|pos: i16| #[trigger] first.contains_key(pos) implies first[pos] == second[pos] by {
        assert forall|bit: int| 0 <= bit < 256 implies #[trigger] word_bit(first[pos], bit)
            == word_bit(second[pos], bit) by {
            let compressed = 256 * pos + bit;
            assert(compressed / 256 == pos && compressed % 256 == bit);
            bitmap_of_same_data(a, b, tick_spacing, pos, compressed);
            bitmap_of_same_data(b, a, tick_spacing, pos, compressed);
            assert(tick_bit(first, compressed) == tick_bit(second, compressed));
            assert(word_position(compressed) == pos);
        }
        word_is_its_bits(first[pos], second[pos]);
    }
    assert(first =~= second);
}

/// A pool that was loaded has all of its known ticks marked in its bitmap.
pub proof fn loaded_ticks_are_marked(
    fetched: Seq<TickData>,
    tick_spacing: i32,
    tick: i32,
    sqrt_price: nat,
    liquidity: u128,
)
    requires
        tick_spacing > 0,
        forall|i: int| 0 <= i < fetched.len() ==> has_place((#[trigger] fetched[i]).tick),
    ensures
        ticks_are_marked(
            LiquidityView {
                tick_spacing,
                tick,
                sqrt_price,
                liquidity,
                ticks: ticks_of(fetched),
                bitmap: bitmap_of(fetched, tick_spacing as int),
            },
        ),
{
    assert forall|t: i32| #[trigger] ticks_of(fetched).contains_key(t) implies has_place(t)
        && tick_bit(
        bitmap_of(fetched, tick_spacing as int),
        trunc_div(t as int, tick_spacing as int),
    ) by {
        ticks_of_are_initialized(fetched, t);
        let i = choose|i: int|
            0 <= i < fetched.len() && (#[trigger] fetched[i]).initialized && fetched[i].tick == t;
        assert(has_place(fetched[i].tick));
        compressed_has_place(t as int, tick_spacing as int);
        bitmap_marks_initialized(
            fetched,
            tick_spacing as int,
            trunc_div(t as int, tick_spacing as int),
        );
    }
}

/// Applies loaded tick data to create tick maps and bitmaps
pub fn apply_ticks(fetched_ticks: &Vec<TickData>, tick_spacing: i32) -> (r: (
    HashMap<i32, TickInfo>,
    HashMap<i16, U256>,
))
    requires
        tick_spacing != 0,
        forall|i: int| 0 <= i < fetched_ticks@.len() ==> (#[trigger] fetched_ticks@[i]).tick
            != i32::MIN,
    ensures
        r.0@ == ticks_of(fetched_ticks@),
        r.1@ == bitmap_of(fetched_ticks@, tick_spacing as int),
{
    let mut ticks: HashMap<i32, TickInfo> = HashMap::new();
    let mut tick_bitmap: HashMap<i16, U256> = HashMap::new();
    let mut i: usize = 0;
    // Process only initialized ticks
    while i < fetched_ticks.len()
        invariant
            i <= fetched_ticks.len(),
            tick_spacing != 0,
            forall|j: int| 0 <= j < fetched_ticks@.len() ==> (#[trigger] fetched_ticks@[j]).tick
                != i32::MIN,
            ticks@ == ticks_of(fetched_ticks@.take(i as int)),
            tick_bitmap@ == bitmap_of(fetched_ticks@.take(i as int), tick_spacing as int),
        decreases fetched_ticks.len() - i,
    {
        let tick_data: TickData = fetched_ticks[i];
        assert(fetched_ticks@.take(i + 1).drop_last() =~= fetched_ticks@.take(i as int));
        if tick_data.initialized {
            ticks.insert(
                tick_data.tick,
                TickInfo { liquidity_net: tick_data.liquidity_net, initialized: true },
            );
            // Update tick bitmap
            flip_tick_if_not_init(&mut tick_bitmap, tick_data.tick, tick_spacing);
        }
        i = i + 1;
    }
    assert(fetched_ticks@.take(i as int) =~= fetched_ticks@);
    (ticks, tick_bitmap)
}

/// How many batches it takes to load a band of ticks.
pub open spec fn batch_count(tick_band: u16) -> nat {
    ((tick_band as int + TICKS_PER_BATCH - 1) / TICKS_PER_BATCH as int) as nat
}

/// Where the `k`-th batch starts. From one batch to the next it moves by as many
/// ticks as a batch asks for and one tick spacing more.
pub open spec fn batch_start(
    current_tick: i32,
    tick_spacing: i32,
    zero_for_one: bool,
    k: int,
) -> int {
    let step = k * (TICKS_PER_BATCH + tick_spacing);
    if zero_for_one {
        current_tick - step
    } else {
        current_tick + step
    }
}

/// How many ticks the `k`-th batch asks for.
pub open spec fn batch_size(tick_band: u16, k: int) -> int {
    if tick_band - k * TICKS_PER_BATCH < TICKS_PER_BATCH {
        tick_band - k * TICKS_PER_BATCH
    } else {
        TICKS_PER_BATCH as int
    }
}

/// The batches that load a band of ticks in one direction.
pub open spec fn batches_of(
    current_tick: i32,
    tick_spacing: i32,
    zero_for_one: bool,
    tick_band: u16,
) -> Seq<TickBatch> {
    Seq::new(
        batch_count(tick_band),
        |k: int|
            TickBatch {
                tick_start: batch_start(current_tick, tick_spacing, zero_for_one, k) as i32,
                zero_for_one,
                num_ticks: batch_size(tick_band, k) as u16,
            },
    )
}

/// How many ticks some batches ask for together.
pub open spec fn total_ticks(batches: Seq<TickBatch>) -> nat
    decreases batches.len(),
{
    if batches.len() == 0 {
        0
    } else {
        total_ticks(batches.drop_last()) + batches.last().num_ticks as nat
    }
}

/// The first batches ask for full batches, as far as the band goes.
proof fn total_of_first(
    current_tick: i32,
    tick_spacing: i32,
    zero_for_one: bool,
    tick_band: u16,
    n: int,
)
    requires
        0 <= n <= batch_count(tick_band),
    ensures
        total_ticks(
            batches_of(current_tick, tick_spacing, zero_for_one, tick_band).take(n),
        ) == if n * TICKS_PER_BATCH <= tick_band {
            n * TICKS_PER_BATCH
        } else {
            tick_band as int
        },
    decreases n,
{
    if n > 0 {
        total_of_first(current_tick, tick_spacing, zero_for_one, tick_band, n - 1);
        let all = batches_of(current_tick, tick_spacing, zero_for_one, tick_band);
        assert(all.take(n).drop_last() =~= all.take(n - 1));
    }
}

/// The batches of a band ask for as many ticks as the band has.
pub proof fn batches_ask_for_band(
    current_tick: i32,
    tick_spacing: i32,
    zero_for_one: bool,
    tick_band: u16,
)
    ensures
        total_ticks(batches_of(current_tick, tick_spacing, zero_for_one, tick_band)) == tick_band,
{
    let n = batch_count(tick_band) as int;
    total_of_first(current_tick, tick_spacing, zero_for_one, tick_band, n);
    let all = batches_of(current_tick, tick_spacing, zero_for_one, tick_band);
    assert(all.take(n) =~= all);
}

/// Whether a number fits the 24 bits that a tick has on chain.
pub open spec fn fits_i24(n: int) -> bool {
    -0x80_0000 <= n < 0x80_0000
}

/// Plans the requests that load a band of ticks in one direction.
pub fn plan_tick_batches(
    current_tick: i32,
    tick_spacing: i32,
    zero_for_one: bool,
    tick_band: u16,
) -> (r: Vec<TickBatch>)
    requires
        fits_i24(current_tick as int),
        fits_i24(tick_spacing as int),
        tick_band > 0 ==> fits_i24(
            batch_start(current_tick, tick_spacing, zero_for_one, batch_count(tick_band) - 1),
        ),
    ensures
        r@ == batches_of(current_tick, tick_spacing, zero_for_one, tick_band),
{
    let mut batches: Vec<TickBatch> = Vec::new();
    let mut tick_start: i32 = current_tick;
    let mut ticks_loaded: u16 = 0;
    let ghost all = batches_of(current_tick, tick_spacing, zero_for_one, tick_band);
    let ghost n = batch_count(tick_band) as int;
    let ghost mut k: int = 0;
    while ticks_loaded < tick_band
        invariant
            0 <= k <= n,
            n == batch_count(tick_band),
            all == batches_of(current_tick, tick_spacing, zero_for_one, tick_band),
            batches@ == all.take(k),
            ticks_loaded <= tick_band,
            ticks_loaded == if k * TICKS_PER_BATCH <= tick_band {
                k * TICKS_PER_BATCH
            } else {
                tick_band as int
            },
            ticks_loaded < tick_band ==> k < n && tick_start == batch_start(
                current_tick,
                tick_spacing,
                zero_for_one,
                k,
            ),
            fits_i24(current_tick as int),
            fits_i24(tick_spacing as int),
            tick_band > 0 ==> fits_i24(
                batch_start(current_tick, tick_spacing, zero_for_one, n - 1),
            ),
            ticks_loaded >= tick_band ==> k == n,
        decreases tick_band - ticks_loaded,
    {
        let left: u16 = tick_band - ticks_loaded;
        let ticks_to_load: u16 = if left < TICKS_PER_BATCH {
            left
        } else {
            TICKS_PER_BATCH
        };
        proof {
            batch_start_between(current_tick, tick_spacing, zero_for_one, k, n - 1);
        }
        batches.push(TickBatch { tick_start, zero_for_one, num_ticks: ticks_to_load });
        ticks_loaded = ticks_loaded + ticks_to_load;
        let next_tick: i32 = if zero_for_one {
            tick_start - ticks_to_load as i32
        } else {
            tick_start + ticks_to_load as i32
        };
        // Update tick_start for next batch
        tick_start = if zero_for_one {
            next_tick.wrapping_sub(tick_spacing)
        } else {
            next_tick.wrapping_add(tick_spacing)
        };
        proof {
            assert(batches@ =~= all.take(k + 1));
            assert((k + 1) * (TICKS_PER_BATCH + tick_spacing) == k * (TICKS_PER_BATCH
                + tick_spacing) + (TICKS_PER_BATCH + tick_spacing)) by (nonlinear_arith);
            k = k + 1;
        }
    }
    assert(all.take(n) =~= all);
    batches
}

/// The starts of the batches lie between the first and the last.
proof fn batch_start_between(
    current_tick: i32,
    tick_spacing: i32,
    zero_for_one: bool,
    k: int,
    last: int,
)
    requires
        0 <= k <= last,
        fits_i24(current_tick as int),
        fits_i24(batch_start(current_tick, tick_spacing, zero_for_one, last)),
    ensures
        fits_i24(batch_start(current_tick, tick_spacing, zero_for_one, k)),
{
    let step = TICKS_PER_BATCH + tick_spacing;
    assert((0 <= k * step <= last * step) || (last * step <= k * step <= 0)) by (nonlinear_arith)
        requires
            0 <= k <= last,
    ;
}

/// The batches of a band run away from the current tick, downwards for
/// `zero_for_one` and upwards otherwise. The first starts at the current tick, and
/// each of the others as many ticks further on as the one before asks for and one
/// tick spacing more: for a positive spacing strictly further, so that no start
/// lies on the other side of the current tick. All but the last ask for full
/// batches, and together they ask for the band.
pub proof fn batches_run_away_from_the_tick(
    current_tick: i32,
    tick_spacing: i32,
    zero_for_one: bool,
    tick_band: u16,
)
    requires
        fits_i24(current_tick as int),
        fits_i24(tick_spacing as int),
        ({
            let further = (batches_of(current_tick, tick_spacing, zero_for_one, tick_band).len()
                - 1) * (25 + tick_spacing);
            tick_band > 0 ==> fits_i24(
                if zero_for_one {
                    current_tick - further
                } else {
                    current_tick + further
                },
            )
        }),
    ensures
        ({
            let batches = batches_of(current_tick, tick_spacing, zero_for_one, tick_band);
            let n = batches.len() as int;
            &&& (n == 0) == (tick_band == 0)
            &&& n > 0 ==> batches[0].tick_start == current_tick
            &&& forall|k: int, next: int|
                0 <= k < n && next == k + 1 && next < n ==> (#[trigger] batches[next]).tick_start
                    == if zero_for_one {
                    batches[k].tick_start - ((#[trigger] batches[k]).num_ticks + tick_spacing)
                } else {
                    batches[k].tick_start + (batches[k].num_ticks + tick_spacing)
                }
            &&& forall|j: int, k: int|
                tick_spacing > 0 && 0 <= j < k < n ==> if zero_for_one {
                    (#[trigger] batches[k]).tick_start < (#[trigger] batches[j]).tick_start
                        <= current_tick
                } else {
                    batches[k].tick_start > batches[j].tick_start >= current_tick
                }
            &&& forall|k: int|
                0 <= k < n ==> (#[trigger] batches[k]).zero_for_one == zero_for_one && 1
                    <= batches[k].num_ticks <= 25 && (k < n - 1 ==> batches[k].num_ticks == 25)
            &&& n > 0 ==> 25 * (n - 1) + batches[n - 1].num_ticks == tick_band
        }),
{
    let batches = batches_of(current_tick, tick_spacing, zero_for_one, tick_band);
    let n = batches.len() as int;
    let step = TICKS_PER_BATCH + tick_spacing;
    assert forall|k: int| 0 <= k < n implies #[trigger] batches[k].tick_start == batch_start(
        current_tick,
        tick_spacing,
        zero_for_one,
        k,
    ) && batches[k].num_ticks == batch_size(tick_band, k) && 0 < tick_band - 25 * k by {
        batch_start_between(current_tick, tick_spacing, zero_for_one, k, n - 1);
    }
    if n > 0 {
        assert(batches[0].num_ticks == batch_size(tick_band, 0));
        assert(batches[n - 1].num_ticks == batch_size(tick_band, n - 1));
        assert(0 * step == 0) by (nonlinear_arith);
        assert(batches[0].tick_start == batch_start(current_tick, tick_spacing, zero_for_one, 0));
    }
    assert forall|k: int, next: int| 0 <= k < n && next == k + 1 && next < n implies (
    #[trigger] batches[next]).tick_start == if zero_for_one {
        batches[k].tick_start - ((#[trigger] batches[k]).num_ticks + tick_spacing)
    } else {
        batches[k].tick_start + (batches[k].num_ticks + tick_spacing)
    } by {
        assert((k + 1) * step == k * step + step) by (nonlinear_arith);
    }
    assert forall|j: int, k: int| tick_spacing > 0 && 0 <= j < k < n implies if zero_for_one {
        (#[trigger] batches[k]).tick_start < (#[trigger] batches[j]).tick_start <= current_tick
    } else {
        batches[k].tick_start > batches[j].tick_start >= current_tick
    } by {
        assert(0 <= j * step < k * step) by (nonlinear_arith)
            requires
                0 <= j < k,
                step > 0,
        ;
    }
}

/// Of a tick that was loaded more than once, the last of its entries stands.
pub proof fn last_entry_of_a_tick_stands(fetched: Seq<TickData>, k: int)
    requires
        0 <= k < fetched.len(),
        fetched[k].initialized,
        forall|j: int|
            k < j < fetched.len() && (#[trigger] fetched[j]).initialized ==> fetched[j].tick
                != fetched[k].tick,
    ensures
        ticks_of(fetched).contains_key(fetched[k].tick),
        ticks_of(fetched)[fetched[k].tick].liquidity_net == fetched[k].liquidity_net,
        ticks_of(fetched)[fetched[k].tick].initialized,
    decreases fetched.len(),
{
    let front = fetched.drop_last();
    if k < front.len() {
        assert(front[k] == fetched[k]);
        assert(fetched[fetched.len() - 1] == fetched.last());
        assert forall|j: int|
            k < j < front.len() && (#[trigger] front[j]).initialized implies front[j].tick
            != front[k].tick by {
            assert(front[j] == fetched[j]);
        }
        last_entry_of_a_tick_stands(front, k);
    }
}

/// The identifier that a pool goes by on chain, or its own where none is known.
pub open spec fn internal_id(registry: RegistryView, id: PoolId) -> PoolId {
    if registry.conversion_map.contains_key(id) {
        registry.conversion_map[id]
    } else {
        id
    }
}

/// In a consistent registry a pool is loaded by the identifier that it goes by on chain,
/// and one that is not known by its own.
pub proof fn pools_are_loaded_by_chain_id(registry: RegistryView, id: PoolId)
    requires
        is_consistent(registry),
    ensures
        registry.pools.contains_key(id) ==> internal_id(registry, id) == pool_id_of(
            PoolKey { fee: 0x80_0000, ..registry.pools[id] },
        ),
        !registry.pools.contains_key(id) ==> internal_id(registry, id) == id,
{
    assert(registry.pools.dom().contains(id) == registry.conversion_map.dom().contains(id));
}

/// The request that loads a pool.
pub open spec fn load_of(
    key: PoolKey,
    tick_band: u16,
    block: u64,
    bundle_fee: u32,
    swap_fee: u32,
    protocol_fee: u32,
) -> PoolLoad {
    PoolLoad {
        pool_id: pool_id_of(key),
        internal_pool_id: pool_id_of(private_key_of(key)),
        tick_band,
        block,
        bundle_fee,
        swap_fee,
        protocol_fee,
    }
}

/// Factory for creating BaselinePoolState instances with full tick loading
#[derive(Debug)]
pub struct BaselinePoolFactory {
    pub registry: UniswapPoolRegistry,
    pub pool_manager: Address,
    pub tick_band: u16,
    pub is_bundle_mode: bool,
}

impl BaselinePoolFactory {
    /// A factory that starts from a registry.
    pub fn new(
        registry: UniswapPoolRegistry,
        pool_manager: Address,
        tick_band: Option<u16>,
        is_bundle_mode: bool,
    ) -> (r: BaselinePoolFactory)
        ensures
            r.registry@ == registry@,
            r.pool_manager == pool_manager,
            r.tick_band == match tick_band {
                Some(band) => band,
                None => INITIAL_TICKS_PER_SIDE,
            },
            r.is_bundle_mode == is_bundle_mode,
    {
        let tick_band: u16 = match tick_band {
            Some(band) => band,
            None => INITIAL_TICKS_PER_SIDE,
        };
        BaselinePoolFactory { registry, pool_manager, tick_band, is_bundle_mode }
    }

    /// A copy of the registry.
    pub fn registry(&self) -> (r: UniswapPoolRegistry)
        ensures
            r@ == self.registry@,
            r.pools.order() == self.registry.pools.order(),
    {
        self.registry.clone()
    }

    /// The identifiers that the pools go by on chain.
    pub fn get_uniswap_pool_ids(&self) -> (r: Vec<PoolId>)
        ensures
            r@ == Seq::new(
                self.registry.conversion_map.order().len(),
                |i: int| self.registry.conversion_map.order()[i].1,
            ),
            forall|id: PoolId| #[trigger] r@.contains(id) <==> is_private_id(self.registry@, id),
    {
        self.registry.private_keys()
    }

    /// The requests that load all pools of the registry, with no fees known.
    pub fn init_baseline_pools(&self, block: u64) -> (r: Vec<PoolLoad>)
        requires
            self.registry@.pools.dom().subset_of(self.registry@.conversion_map.dom()),
        ensures
            r@.len() == self.registry.pools.order().len(),
            forall|i: int|
                0 <= i < r@.len() ==> #[trigger] r@[i] == (PoolLoad {
                    pool_id: self.registry.pools.order()[i].0,
                    internal_pool_id: self.registry@.conversion_map[self.registry.pools.order()[i].0],
                    tick_band: self.tick_band,
                    block,
                    bundle_fee: 0,
                    swap_fee: 0,
                    protocol_fee: 0,
                }),
    {
        let n: usize = self.registry.pools.len();
        let ghost order = self.registry.pools.order();
        let mut loads: Vec<PoolLoad> = Vec::new();
        let mut i: usize = 0;
        while i < n
            invariant
                i <= n,
                n == order.len(),
                order == self.registry.pools.order(),
                self.registry@.pools == map_of(order),
                crate::id_collections::distinct_keys(order),
                self.registry@.pools.dom().subset_of(self.registry@.conversion_map.dom()),
                loads@.len() == i,
                forall|j: int|
                    0 <= j < i ==> #[trigger] loads@[j] == (PoolLoad {
                        pool_id: order[j].0,
                        internal_pool_id: self.registry@.conversion_map[order[j].0],
                        tick_band: self.tick_band,
                        block,
                        bundle_fee: 0,
                        swap_fee: 0,
                        protocol_fee: 0,
                    }),
            decreases n - i,
        {
            let entry: (PoolId, &PoolKey) = self.registry.pools.entry(i);
            proof {
                map_of_entry(order, i as int);
                assert(self.registry@.pools.dom().contains(entry.0));
            }
            match self.registry.conversion_map.get(&entry.0) {
                Some(internal) => {
                    loads.push(
                        PoolLoad {
                            pool_id: entry.0,
                            internal_pool_id: *internal,
                            tick_band: self.tick_band,
                            block,
                            bundle_fee: 0,
                            swap_fee: 0,
                            protocol_fee: 0,
                        },
                    );
                },
                None => {
                    assert(false);
                },
            }
            i = i + 1;
        }
        loads
    }

    /// Takes a pool into the registry, and gives both of its identifiers.
    fn register(&mut self, pool_key: PoolKey) -> (r: (PoolId, PoolId))
        ensures
            r == (pool_id_of(pool_key), pool_id_of(private_key_of(pool_key))),
            final(self).registry@ == with_pool(old(self).registry@, pool_key),
            final(self).pool_manager == old(self).pool_manager,
            final(self).tick_band == old(self).tick_band,
            final(self).is_bundle_mode == old(self).is_bundle_mode,
    {
        self.registry.add_new_pool(pool_key);
        (PoolId::from(pool_key), PoolId::from(pool_key.with_dynamic_fee()))
    }

    /// Takes up a pool, and gives the request that loads it with the ticks that
    /// the factory is set to.
    pub fn create_new_baseline_angstrom_pool(
        &mut self,
        pool_key: PoolKey,
        block: u64,
        bundle_fee: u32,
        swap_fee: u32,
        protocol_fee: u32,
    ) -> (r: PoolLoad)
        ensures
            r == load_of(
                pool_key,
                old(self).tick_band,
                block,
                bundle_fee,
                swap_fee,
                protocol_fee,
            ),
            final(self).registry@ == with_pool(old(self).registry@, pool_key),
            final(self).pool_manager == old(self).pool_manager,
            final(self).tick_band == old(self).tick_band,
            final(self).is_bundle_mode == old(self).is_bundle_mode,
    {
        let (pool_id, internal_pool_id) = self.register(pool_key);
        PoolLoad {
            pool_id,
            internal_pool_id,
            tick_band: self.tick_band,
            block,
            bundle_fee,
            swap_fee,
            protocol_fee,
        }
    }

    /// Queue a new pool for creation
    /// It is loaded with [`INITIAL_TICKS_PER_SIDE`] ticks on each side.
    pub fn queue_pool_creation(
        &mut self,
        pool_key: PoolKey,
        block: u64,
        bundle_fee: u32,
        swap_fee: u32,
        protocol_fee: u32,
    ) -> (r: PoolLoad)
        ensures
            r == load_of(
                pool_key,
                INITIAL_TICKS_PER_SIDE,
                block,
                bundle_fee,
                swap_fee,
                protocol_fee,
            ),
            final(self).registry@ == with_pool(old(self).registry@, pool_key),
            final(self).pool_manager == old(self).pool_manager,
            final(self).tick_band == old(self).tick_band,
            final(self).is_bundle_mode == old(self).is_bundle_mode,
    {
        // First add to registry
        let (pool_id, internal_pool_id) = self.register(pool_key);
        PoolLoad {
            pool_id,
            internal_pool_id,
            tick_band: INITIAL_TICKS_PER_SIDE,
            block,
            bundle_fee,
            swap_fee,
            protocol_fee,
        }
    }

    /// The requests that load the ticks around the current tick of a pool:
    /// those below it, then those above.
    pub fn load_tick_data_in_band(current_tick: i32, tick_spacing: i32, tick_band: u16) -> (r: (
        Vec<TickBatch>,
        Vec<TickBatch>,
    ))
        requires
            fits_i24(current_tick as int),
            fits_i24(tick_spacing as int),
            tick_band > 0 ==> fits_i24(
                batch_start(current_tick, tick_spacing, true, batch_count(tick_band) - 1),
            ),
            tick_band > 0 ==> fits_i24(
                batch_start(current_tick, tick_spacing, false, batch_count(tick_band) - 1),
            ),
        ensures
            r.0@ == batches_of(current_tick, tick_spacing, true, tick_band),
            r.1@ == batches_of(current_tick, tick_spacing, false, tick_band),
    {
        let asks: Vec<TickBatch> = plan_tick_batches(current_tick, tick_spacing, true, tick_band);
        let bids: Vec<TickBatch> = plan_tick_batches(current_tick, tick_spacing, false, tick_band);
        (asks, bids)
    }

    /// The state of a pool made of what was loaded of it.
    pub fn create_baseline_pool(
        &self,
        load: &PoolLoad,
        pool_data: &PoolData,
        fetched_ticks: &Vec<TickData>,
    ) -> (r: BaselinePoolState)
        requires
            pool_data.tick_spacing != 0,
            forall|i: int|
                0 <= i < fetched_ticks@.len() ==> (#[trigger] fetched_ticks@[i]).tick != i32::MIN,
        ensures
            r@ == (PoolStateView {
                liquidity: LiquidityView {
                    tick_spacing: pool_data.tick_spacing,
                    tick: pool_data.tick,
                    sqrt_price: pool_data.sqrt_price@,
                    liquidity: pool_data.liquidity,
                    ticks: ticks_of(fetched_ticks@),
                    bitmap: bitmap_of(fetched_ticks@, pool_data.tick_spacing as int),
                },
                block: load.block,
                fee_config: FeeConfiguration {
                    is_bundle_mode: self.is_bundle_mode,
                    bundle_fee: load.bundle_fee,
                    swap_fee: load.swap_fee,
                    protocol_fee: load.protocol_fee,
                },
            }),
    {
        let (ticks, tick_bitmap) = apply_ticks(fetched_ticks, pool_data.tick_spacing);
        let liquidity: BaselineLiquidity = BaselineLiquidity::new(
            pool_data.tick_spacing,
            pool_data.tick,
            SqrtPriceX96::from_u160(pool_data.sqrt_price),
            pool_data.liquidity,
            ticks,
            tick_bitmap,
        );
        let fee_config: FeeConfiguration = FeeConfiguration {
            is_bundle_mode: self.is_bundle_mode,
            bundle_fee: load.bundle_fee,
            swap_fee: load.swap_fee,
            protocol_fee: load.protocol_fee,
        };
        BaselinePoolState::new(liquidity, load.block, fee_config)
    }

    /// Get current pool keys from registry
    pub fn current_pool_keys(&self) -> (r: Vec<PoolKey>)
        ensures
            r@ == Seq::new(
                self.registry.pools.order().len(),
                |i: int| self.registry.pools.order()[i].1,
            ),
            forall|key: PoolKey| #[trigger] r@.contains(key) <==> is_known_key(self.registry@, key),
    {
        let mut out: Vec<PoolKey> = Vec::new();
        let n: usize = self.registry.pools.len();
        let ghost order = self.registry.pools.order();
        let mut i: usize = 0;
        while i < n
            invariant
                i <= n,
                order == self.registry.pools.order(),
                n == order.len(),
                out@ == Seq::new(i as nat, |j: int| order[j].1),
            decreases n - i,
        {
            let entry: (PoolId, &PoolKey) = self.registry.pools.entry(i);
            out.push(*entry.1);
            i = i + 1;
            assert(out@ =~= Seq::new(i as nat, |j: int| order[j].1));
        }
        proof {
            assert forall|key: PoolKey| #[trigger] out@.contains(key) <==> is_known_key(
                self.registry@,
                key,
            ) by {
                if out@.contains(key) {
                    let k = choose|k: int| 0 <= k < out@.len() && out@[k] == key;
                    map_of_entry(order, k);
                    assert(self.registry@.pools.contains_key(order[k].0));
                }
                if is_known_key(self.registry@, key) {
                    let id = choose|id: PoolId| #[trigger]
                        self.registry@.pools.contains_key(id) && self.registry@.pools[id] == key;
                    let k = key_index(order, id);
                    assert(out@[k] == key);
                }
            }
        }
        out
    }

    /// Get conversion map from registry
    pub fn conversion_map(&self) -> (r: &PoolIdMap<PoolId>)
        ensures
            r@ == self.registry@.conversion_map,
    {
        &self.registry.conversion_map
    }

    /// Takes a pool out of the registry, if it is there.
    pub fn remove_pool_by_id(&mut self, pool_id: PoolId)
        ensures
            final(self).registry@ == without_pool(old(self).registry@, pool_id),
            final(self).pool_manager == old(self).pool_manager,
            final(self).tick_band == old(self).tick_band,
            final(self).is_bundle_mode == old(self).is_bundle_mode,
    {
        self.registry.remove(&pool_id);
    }

    /// Remove pool from registry
    pub fn remove_pool(&mut self, pool_key: PoolKey) -> (r: PoolId)
        requires
            old(self).registry@.conversion_map.contains_key(pool_id_of(pool_key)),
        ensures
            r == pool_id_of(pool_key),
            final(self).registry@ == without_pool(old(self).registry@, r),
            final(self).pool_manager == old(self).pool_manager,
            final(self).tick_band == old(self).tick_band,
            final(self).is_bundle_mode == old(self).is_bundle_mode,
    {
        let id: PoolId = PoolId::from(pool_key);
        self.remove_pool_by_id(id);
        id
    }

    /// [`BaselinePoolFactory::remove_pool`] for a pool that may be unknown.
    pub fn remove_pool_if_known(&mut self, pool_key: PoolKey) -> (r: Option<PoolId>)
        ensures
            old(self).registry@.conversion_map.contains_key(pool_id_of(pool_key)) ==> r == Some(
                pool_id_of(pool_key),
            ) && final(self).registry@ == without_pool(old(self).registry@, pool_id_of(pool_key)),
            !old(self).registry@.conversion_map.contains_key(pool_id_of(pool_key)) ==> r is None
                && final(self).registry@ == old(self).registry@,
            final(self).pool_manager == old(self).pool_manager,
            final(self).tick_band == old(self).tick_band,
            final(self).is_bundle_mode == old(self).is_bundle_mode,
    {
        let id: PoolId = PoolId::from(pool_key);
        if self.registry.conversion_map.contains_key(&id) {
            Some(self.remove_pool(pool_key))
        } else {
            None
        }
    }

    /// Request more ticks to be loaded for a pool
    pub fn request_more_ticks(
        &self,
        pool_id: PoolId,
        zero_for_one: bool,
        current_tick: i32,
        tick_spacing: i32,
        num_ticks: u16,
        block_number: Option<u64>,
    ) -> (r: TickLoad)
        requires
            fits_i24(tick_spacing as int),
            fits_i24(
                if zero_for_one {
                    current_tick - tick_spacing
                } else {
                    current_tick + tick_spacing
                },
            ),
        ensures
            r == (TickLoad {
                pool_id,
                internal_pool_id: internal_id(self.registry@, pool_id),
                batch: TickBatch {
                    tick_start: (if zero_for_one {
                        current_tick - tick_spacing
                    } else {
                        current_tick + tick_spacing
                    }) as i32,
                    zero_for_one,
                    num_ticks,
                },
                tick_spacing,
                block: block_number,
            }),
    {
        // Get the internal pool ID for loading
        let internal_pool_id: PoolId = match self.registry.conversion_map.get(&pool_id) {
            Some(id) => *id,
            None => pool_id,
        };
        let tick_start: i32 = if zero_for_one {
            current_tick - tick_spacing
        } else {
            current_tick + tick_spacing
        };
        TickLoad {
            pool_id,
            internal_pool_id,
            batch: TickBatch { tick_start, zero_for_one, num_ticks },
            tick_spacing,
            block: block_number,
        }
    }

    /// The message that hands on ticks that were loaded.
    pub fn loaded_ticks(load: &TickLoad, ticks: &Vec<TickData>) -> (r: UpdateMessage)
        requires
            load.tick_spacing != 0,
            forall|i: int| 0 <= i < ticks@.len() ==> (#[trigger] ticks@[i]).tick != i32::MIN,
        ensures
            r matches UpdateMessage::NewTicks(id, t, b) && id == load.pool_id && t@ == ticks_of(
                ticks@,
            ) && b@ == bitmap_of(ticks@, load.tick_spacing as int),
    {
        let (tick_map, tick_bitmap) = apply_ticks(ticks, load.tick_spacing);
        UpdateMessage::NewTicks(load.pool_id, tick_map, tick_bitmap)
    }
}

} // verus!
