//! The logs and calls that pools and their controller leave on chain.
use vstd::prelude::*;

use crate::abi::{
    address_of, i128_of, i24_of, low_bits, read_word, u128_of, u160_of, word_at, word_to_address,
    word_to_i128, word_to_i24, word_to_u128, word_to_u16, word_to_u160, word_to_u24,
};
use crate::updates::{ModifyLiquidityEventData, SwapEventData};
use crate::words::{Address, PoolId, B256, I256, U256};

verus! {

/// A log of a contract and where it stands on chain.
#[derive(Debug)]
pub struct Log {
    pub topics: Vec<B256>,
    pub data: Vec<u8>,
    pub block_number: Option<u64>,
    pub transaction_index: Option<u64>,
    pub log_index: Option<u64>,
}

/// A call of a contract.
#[derive(Debug)]
pub struct Transaction {
    pub to: Option<Address>,
    pub input: Vec<u8>,
}

/// The first topic of `Swap(bytes32 indexed id, address indexed sender, int128
/// amount0, int128 amount1, uint160 sqrtPriceX96, uint128 liquidity, int24
/// tick, uint24 fee)`.
pub open spec fn swap_signature() -> B256 {
    B256 {
        word: U256 {
            l0: 0xaca94dd84ad7112f,
            l1: 0xe92e57ba5563708d,
            l2: 0x5b9c97dec2917b7e,
            l3: 0x40e9cecb9f5f1f1c,
        },
    }
}

/// The first topic of `ModifyLiquidity(bytes32 indexed id, address indexed
/// sender, int24 tickLower, int24 tickUpper, int256 liquidityDelta, bytes32
/// salt)`.
pub open spec fn modify_liquidity_signature() -> B256 {
    B256 {
        word: U256 {
            l0: 0xf63baa85f711d5ec,
            l1: 0xdd6f3bcc3ac8db5a,
            l2: 0xc7f114ca3723a2d5,
            l3: 0xf208f4912782fd25,
        },
    }
}

/// The first topic of `PoolConfigured(address indexed asset0, address indexed
/// asset1, uint24 indexed bundleFee, uint16 tickSpacing, address hook, uint24
/// feeInE6)`.
pub open spec fn pool_configured_signature() -> B256 {
    B256 {
        word: U256 {
            l0: 0xab1bde59bab76a16,
            l1: 0x6f5d9accd393fbaf,
            l2: 0x76c5ecdc616940f0,
            l3: 0x922380e7f1a0cdb2,
        },
    }
}

/// The first topic of `PoolConfigured(address indexed asset0, address indexed
/// asset1, uint16 tickSpacing, uint24 bundleFee, uint24 unlockedFee, uint24
/// protocolUnlockedFee)`.
pub open spec fn pool_fees_configured_signature() -> B256 {
    B256 {
        word: U256 {
            l0: 0x53af271a7a3224e9,
            l1: 0x3a1d1162e206373e,
            l2: 0xbc41dc5257edefd4,
            l3: 0xf325a037d71efc98,
        },
    }
}

/// The first topic of `PoolRemoved(address indexed asset0, address indexed
/// asset1, uint24 indexed feeInE6, int24 tickSpacing)`.
pub open spec fn pool_removed_signature() -> B256 {
    B256 {
        word: U256 {
            l0: 0x2da83e30f4c84823,
            l1: 0x203525de214a6d6d,
            l2: 0x1babe0aeca573267,
            l3: 0xfc53c35911d26a5d,
        },
    }
}

/// [`swap_signature`].
pub fn swap_topic() -> (r: B256)
    ensures
        r == swap_signature(),
{
    B256 {
        word: U256 {
            l0: 0xaca94dd84ad7112f,
            l1: 0xe92e57ba5563708d,
            l2: 0x5b9c97dec2917b7e,
            l3: 0x40e9cecb9f5f1f1c,
        },
    }
}

/// [`modify_liquidity_signature`].
pub fn modify_liquidity_topic() -> (r: B256)
    ensures
        r == modify_liquidity_signature(),
{
    B256 {
        word: U256 {
            l0: 0xf63baa85f711d5ec,
            l1: 0xdd6f3bcc3ac8db5a,
            l2: 0xc7f114ca3723a2d5,
            l3: 0xf208f4912782fd25,
        },
    }
}

/// [`pool_configured_signature`].
pub fn pool_configured_topic() -> (r: B256)
    ensures
        r == pool_configured_signature(),
{
    B256 {
        word: U256 {
            l0: 0xab1bde59bab76a16,
            l1: 0x6f5d9accd393fbaf,
            l2: 0x76c5ecdc616940f0,
            l3: 0x922380e7f1a0cdb2,
        },
    }
}

/// [`pool_fees_configured_signature`].
pub fn pool_fees_configured_topic() -> (r: B256)
    ensures
        r == pool_fees_configured_signature(),
{
    B256 {
        word: U256 {
            l0: 0x53af271a7a3224e9,
            l1: 0x3a1d1162e206373e,
            l2: 0xbc41dc5257edefd4,
            l3: 0xf325a037d71efc98,
        },
    }
}

/// [`pool_removed_signature`].
pub fn pool_removed_topic() -> (r: B256)
    ensures
        r == pool_removed_signature(),
{
    B256 {
        word: U256 {
            l0: 0x2da83e30f4c84823,
            l1: 0x203525de214a6d6d,
            l2: 0x1babe0aeca573267,
            l3: 0xfc53c35911d26a5d,
        },
    }
}

/// Whether a log is an event with the given first topic, number of topics and
/// number of words of data. Data beyond those words is ignored.
pub open spec fn is_event(log: Log, signature: B256, topics: int, words: int) -> bool {
    log.topics@.len() == topics && log.topics@[0] == signature && log.data@.len() >= 32 * words
}

/// Whether a log is an event of the given form.
fn check_event(log: &Log, signature: B256, topics: usize, words: usize) -> (r: bool)
    requires
        topics > 0,
        words <= 1000,
    ensures
        r == is_event(*log, signature, topics as int, words as int),
{
    log.topics.len() == topics && log.topics[0] == signature && log.data.len() >= 32 * words
}

/// The swap that a log tells of, with the pool.
pub open spec fn swap_of(log: Log) -> Option<(PoolId, SwapEventData)> {
    if is_event(log, swap_signature(), 3, 6) {
        Some(
            (
                log.topics@[1],
                SwapEventData {
                    sender: address_of(log.topics@[2].word),
                    amount0: i128_of(word_at(log.data@, 0)),
                    amount1: i128_of(word_at(log.data@, 32)),
                    sqrt_price_x96: u160_of(word_at(log.data@, 64)),
                    liquidity: u128_of(word_at(log.data@, 96)),
                    tick: i24_of(word_at(log.data@, 128)),
                    fee: low_bits(word_at(log.data@, 160), 0x100_0000) as u32,
                },
            ),
        )
    } else {
        None
    }
}

/// Decodes a swap.
pub fn decode_swap(log: &Log) -> (r: Option<(PoolId, SwapEventData)>)
    ensures
        r == swap_of(*log),
{
    if !check_event(log, swap_topic(), 3, 6) {
        return None;
    }
    let event: SwapEventData = SwapEventData {
        sender: word_to_address(log.topics[2].word),
        amount0: word_to_i128(read_word(&log.data, 0)),
        amount1: word_to_i128(read_word(&log.data, 32)),
        sqrt_price_x96: word_to_u160(read_word(&log.data, 64)),
        liquidity: word_to_u128(read_word(&log.data, 96)),
        tick: word_to_i24(read_word(&log.data, 128)),
        fee: word_to_u24(read_word(&log.data, 160)),
    };
    Some((log.topics[1], event))
}

/// The change of liquidity that a log tells of, with the pool.
pub open spec fn modify_liquidity_of(log: Log) -> Option<(PoolId, ModifyLiquidityEventData)> {
    if is_event(log, modify_liquidity_signature(), 3, 4) {
        Some(
            (
                log.topics@[1],
                ModifyLiquidityEventData {
                    sender: address_of(log.topics@[2].word),
                    tick_lower: i24_of(word_at(log.data@, 0)),
                    tick_upper: i24_of(word_at(log.data@, 32)),
                    liquidity_delta: I256 { raw: word_at(log.data@, 64) },
                    salt: B256 { word: word_at(log.data@, 96) },
                },
            ),
        )
    } else {
        None
    }
}

/// Decodes a change of liquidity.
pub fn decode_modify_liquidity(log: &Log) -> (r: Option<(PoolId, ModifyLiquidityEventData)>)
    ensures
        r == modify_liquidity_of(*log),
{
    if !check_event(log, modify_liquidity_topic(), 3, 4) {
        return None;
    }
    let event: ModifyLiquidityEventData = ModifyLiquidityEventData {
        sender: word_to_address(log.topics[2].word),
        tick_lower: word_to_i24(read_word(&log.data, 0)),
        tick_upper: word_to_i24(read_word(&log.data, 32)),
        liquidity_delta: I256 { raw: read_word(&log.data, 64) },
        salt: B256 { word: read_word(&log.data, 96) },
    };
    Some((log.topics[1], event))
}

/// A pool that a controller configured that gives its swap fee alone.
#[derive(Clone, Copy, Debug, PartialEq, Eq, Structural)]
pub struct PoolConfiguredEvent {
    pub asset0: Address,
    pub asset1: Address,
    pub bundle_fee: u32,
    pub tick_spacing: u16,
    pub hook: Address,
    pub fee_in_e6: u32,
}

/// The configured pool that a log tells of.
pub open spec fn pool_configured_of(log: Log) -> Option<PoolConfiguredEvent> {
    if is_event(log, pool_configured_signature(), 4, 3) {
        Some(
            PoolConfiguredEvent {
                asset0: address_of(log.topics@[1].word),
                asset1: address_of(log.topics@[2].word),
                bundle_fee: low_bits(log.topics@[3].word, 0x100_0000) as u32,
                tick_spacing: low_bits(word_at(log.data@, 0), 0x1_0000) as u16,
                hook: address_of(word_at(log.data@, 32)),
                fee_in_e6: low_bits(word_at(log.data@, 64), 0x100_0000) as u32,
            },
        )
    } else {
        None
    }
}

/// Decodes a configured pool.
pub fn decode_pool_configured(log: &Log) -> (r: Option<PoolConfiguredEvent>)
    ensures
        r == pool_configured_of(*log),
{
    if !check_event(log, pool_configured_topic(), 4, 3) {
        return None;
    }
    Some(
        PoolConfiguredEvent {
            asset0: word_to_address(log.topics[1].word),
            asset1: word_to_address(log.topics[2].word),
            bundle_fee: word_to_u24(log.topics[3].word),
            tick_spacing: word_to_u16(read_word(&log.data, 0)),
            hook: word_to_address(read_word(&log.data, 32)),
            fee_in_e6: word_to_u24(read_word(&log.data, 64)),
        },
    )
}

/// A pool that a controller configured that gives all of its fees. Controllers
/// differ in the form of this event; each form has a signature of its own.
#[derive(Clone, Copy, Debug, PartialEq, Eq, Structural)]
pub struct PoolFeesConfiguredEvent {
    pub asset0: Address,
    pub asset1: Address,
    pub tick_spacing: u16,
    pub bundle_fee: u32,
    pub unlocked_fee: u32,
    pub protocol_unlocked_fee: u32,
}

/// The configured pool with fees that a log tells of.
pub open spec fn pool_fees_configured_of(log: Log) -> Option<PoolFeesConfiguredEvent> {
    if is_event(log, pool_fees_configured_signature(), 3, 4) {
        Some(
            PoolFeesConfiguredEvent {
                asset0: address_of(log.topics@[1].word),
                asset1: address_of(log.topics@[2].word),
                tick_spacing: low_bits(word_at(log.data@, 0), 0x1_0000) as u16,
                bundle_fee: low_bits(word_at(log.data@, 32), 0x100_0000) as u32,
                unlocked_fee: low_bits(word_at(log.data@, 64), 0x100_0000) as u32,
                protocol_unlocked_fee: low_bits(word_at(log.data@, 96), 0x100_0000) as u32,
            },
        )
    } else {
        None
    }
}

/// Decodes a configured pool with fees.
pub fn decode_pool_fees_configured(log: &Log) -> (r: Option<PoolFeesConfiguredEvent>)
    ensures
        r == pool_fees_configured_of(*log),
{
    if !check_event(log, pool_fees_configured_topic(), 3, 4) {
        return None;
    }
    Some(
        PoolFeesConfiguredEvent {
            asset0: word_to_address(log.topics[1].word),
            asset1: word_to_address(log.topics[2].word),
            tick_spacing: word_to_u16(read_word(&log.data, 0)),
            bundle_fee: word_to_u24(read_word(&log.data, 32)),
            unlocked_fee: word_to_u24(read_word(&log.data, 64)),
            protocol_unlocked_fee: word_to_u24(read_word(&log.data, 96)),
        },
    )
}

/// A pool that the controller removed.
#[derive(Clone, Copy, Debug, PartialEq, Eq, Structural)]
pub struct PoolRemovedEvent {
    pub asset0: Address,
    pub asset1: Address,
    pub fee_in_e6: u32,
    pub tick_spacing: i32,
}

/// The removed pool that a log tells of.
pub open spec fn pool_removed_of(log: Log) -> Option<PoolRemovedEvent> {
    if is_event(log, pool_removed_signature(), 4, 1) {
        Some(
            PoolRemovedEvent {
                asset0: address_of(log.topics@[1].word),
                asset1: address_of(log.topics@[2].word),
                fee_in_e6: low_bits(log.topics@[3].word, 0x100_0000) as u32,
                tick_spacing: i24_of(word_at(log.data@, 0)),
            },
        )
    } else {
        None
    }
}

/// Decodes a removed pool.
pub fn decode_pool_removed(log: &Log) -> (r: Option<PoolRemovedEvent>)
    ensures
        r == pool_removed_of(*log),
{
    if !check_event(log, pool_removed_topic(), 4, 1) {
        return None;
    }
    Some(
        PoolRemovedEvent {
            asset0: word_to_address(log.topics[1].word),
            asset1: word_to_address(log.topics[2].word),
            fee_in_e6: word_to_u24(log.topics[3].word),
            tick_spacing: word_to_i24(read_word(&log.data, 0)),
        },
    )
}

/// One entry of a call of the controller that changes fees.
#[derive(Clone, Copy, Debug, PartialEq, Eq, Structural)]
pub struct BatchUpdate {
    pub asset_a: Address,
    pub asset_b: Address,
    pub bundle_fee: u32,
    pub unlocked_fee: u32,
    pub protocol_unlocked_fee: u32,
}

/// The entries that `alloy_sol_types` reads from the arguments of
/// `batchUpdatePools((address,address,uint24,uint24,uint24)[])`: for each the
/// words of both addresses, least significant limb first, and the three fees.
pub uninterp spec fn batch_arguments(arguments: Seq<u8>) -> Option<
    Seq<([u64; 4], [u64; 4], u32, u32, u32)>,
>;

/// `alloy_sol_types::SolType::abi_decode_sequence` for the arguments of
/// `batchUpdatePools`: the named entries, or nothing on its errors.
#[verifier::external_body]
fn read_batch_arguments(arguments: &[u8]) -> (r: Option<
    Vec<([u64; 4], [u64; 4], u32, u32, u32)>,
>)
    ensures
        r is Some <==> batch_arguments(arguments@) is Some,
        r matches Some(entries) ==> batch_arguments(arguments@) == Some(entries@),
{
    let (items,) = <(
        alloy_sol_types::sol_data::Array<(
            alloy_sol_types::sol_data::Address,
            alloy_sol_types::sol_data::Address,
            alloy_sol_types::sol_data::Uint<24>,
            alloy_sol_types::sol_data::Uint<24>,
            alloy_sol_types::sol_data::Uint<24>,
        )>,
    ) as alloy_sol_types::SolType>::abi_decode_sequence(arguments).ok()?;
    let limbs = |a: alloy_primitives::Address| {
        alloy_primitives::U256::from_be_bytes(a.into_word().0).into_limbs()
    };
    Some(items.into_iter().map(|i| (limbs(i.0), limbs(i.1), i.2.to(), i.3.to(), i.4.to())).collect())
}

/// The word that limbs spell out, least significant first.
pub open spec fn limbs_word(limbs: [u64; 4]) -> U256 {
    U256 { l0: limbs@[0], l1: limbs@[1], l2: limbs@[2], l3: limbs@[3] }
}

/// The entry with its addresses taken from their words.
pub open spec fn batch_entry(entry: ([u64; 4], [u64; 4], u32, u32, u32)) -> BatchUpdate {
    BatchUpdate {
        asset_a: address_of(limbs_word(entry.0)),
        asset_b: address_of(limbs_word(entry.1)),
        bundle_fee: entry.2,
        unlocked_fee: entry.3,
        protocol_unlocked_fee: entry.4,
    }
}

/// The entries with their addresses taken from their words.
pub open spec fn batch_entries(
    entries: Seq<([u64; 4], [u64; 4], u32, u32, u32)>,
) -> Seq<BatchUpdate> {
    Seq::new(entries.len(), |i: int| batch_entry(entries[i]))
}

/// Takes the addresses of entries from their words.
pub fn batch_from_entries(entries: &Vec<([u64; 4], [u64; 4], u32, u32, u32)>) -> (r: Vec<
    BatchUpdate,
>)
    ensures
        r@ == batch_entries(entries@),
{
    let mut out: Vec<BatchUpdate> = Vec::new();
    let mut i: usize = 0;
    while i < entries.len()
        invariant
            i <= entries.len(),
            out@ == batch_entries(entries@).take(i as int),
        decreases entries.len() - i,
    {
        let entry: &([u64; 4], [u64; 4], u32, u32, u32) = &entries[i];
        out.push(
            BatchUpdate {
                asset_a: word_to_address(U256::from_limbs(entry.0)),
                asset_b: word_to_address(U256::from_limbs(entry.1)),
                bundle_fee: entry.2,
                unlocked_fee: entry.3,
                protocol_unlocked_fee: entry.4,
            },
        );
        i = i + 1;
        assert(out@ =~= batch_entries(entries@).take(i as int));
    }
    assert(batch_entries(entries@).take(i as int) =~= batch_entries(entries@));
    out
}

/// Whether a call is one of
/// `batchUpdatePools((address,address,uint24,uint24,uint24)[])`.
pub open spec fn is_batch_call(input: Seq<u8>) -> bool {
    input.len() >= 4 && input[0] == 0x4d && input[1] == 0x2b && input[2] == 0xf4 && input[3] == 0x7c
}

/// The fee changes that a call asks for, if it is one that changes fees.
pub open spec fn batch_updates_of(input: Seq<u8>) -> Option<Seq<BatchUpdate>> {
    if is_batch_call(input) {
        match batch_arguments(input.subrange(4, input.len() as int)) {
            Some(entries) => Some(batch_entries(entries)),
            None => None,
        }
    } else {
        None
    }
}

/// Decodes a call that changes fees.
pub fn decode_batch_updates(input: &Vec<u8>) -> (r: Option<Vec<BatchUpdate>>)
    ensures
        r is Some <==> batch_updates_of(input@) is Some,
        r matches Some(updates) ==> batch_updates_of(input@) == Some(updates@),
{
    if input.len() < 4 || input[0] != 0x4d || input[1] != 0x2b || input[2] != 0xf4 || input[3]
        != 0x7c {
        return None;
    }
    let arguments: &[u8] = vstd::slice::slice_subrange(input.as_slice(), 4, input.len());
    match read_batch_arguments(arguments) {
        Some(entries) => Some(batch_from_entries(&entries)),
        None => None,
    }
}

} // verus!
