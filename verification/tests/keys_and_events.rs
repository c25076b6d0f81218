//! Pool keys, their identifiers, and what logs and calls say.
use alloy_primitives::{keccak256, I256 as WideInt, U256 as WideUint};
use alloy_sol_types::sol_data::{Array, Int, Uint};
use alloy_sol_types::sol_data::Address as AddressType;
use alloy_sol_types::SolType;
use uni_v4::abi::{
    push_word, read_word, word_from_address, word_from_i32, word_from_u32, word_to_address,
    word_to_i128, word_to_i24, word_to_u128, word_to_u16, word_to_u160, word_to_u24,
};
use uni_v4::events::{
    decode_batch_updates, decode_modify_liquidity, decode_pool_configured,
    decode_pool_fees_configured, decode_pool_removed, decode_swap, modify_liquidity_topic,
    pool_configured_topic, pool_fees_configured_topic, pool_removed_topic, swap_topic, BatchUpdate,
    Log, PoolConfiguredEvent, PoolFeesConfiguredEvent, PoolRemovedEvent,
};
use uni_v4::pool_key::{PoolKey, DYNAMIC_FEE};
use uni_v4::updates::{ModifyLiquidityEventData, SwapEventData};
use uni_v4::words::{i128_to_i256, Address, PoolId, B256, U160, U256};

fn wide(x: U256) -> WideUint {
    WideUint::from_limbs([x.l0, x.l1, x.l2, x.l3])
}

fn narrow(x: WideUint) -> U256 {
    let limbs = x.into_limbs();
    U256 { l0: limbs[0], l1: limbs[1], l2: limbs[2], l3: limbs[3] }
}

fn wide_address(a: Address) -> WideUint {
    (WideUint::from(a.hi) << 128) + WideUint::from(a.lo)
}

fn wide_signed(n: i128) -> WideUint {
    WideInt::try_from(n).unwrap().into_raw()
}

fn bytes_of(words: &[WideUint]) -> Vec<u8> {
    let mut out = Vec::new();
    for word in words {
        out.extend_from_slice(&word.to_be_bytes::<32>());
    }
    out
}

fn hash_of(text: &str) -> B256 {
    B256::from_bytes(&keccak256(text.as_bytes()).to_vec())
}

fn topic(word: WideUint) -> B256 {
    B256 { word: narrow(word) }
}

fn log(topics: Vec<B256>, words: &[WideUint]) -> Log {
    Log {
        topics,
        data: bytes_of(words),
        block_number: Some(1),
        transaction_index: Some(2),
        log_index: Some(3),
    }
}

const TOKEN_A: Address = Address { hi: 0x1234, lo: 77 };
const TOKEN_B: Address = Address { hi: 0xffff_ffff, lo: u128::MAX };
const HOOK: Address = Address { hi: 9, lo: 8 };

fn key() -> PoolKey {
    PoolKey { currency0: TOKEN_A, currency1: TOKEN_B, fee: 3000, tick_spacing: -60, hooks: HOOK }
}

#[test]
fn words_are_big_endian() {
    let word = U256 { l0: 1, l1: 2, l2: 3, l3: 0xff00_0000_0000_0004 };
    let mut bytes: Vec<u8> = vec![7];
    push_word(&mut bytes, word);
    assert_eq!(bytes[1..], wide(word).to_be_bytes::<32>());
    assert_eq!(read_word(&bytes, 1), word);
    let id = B256 { word };
    assert_eq!(id.to_bytes(), wide(word).to_be_bytes::<32>().to_vec());
    assert_eq!(B256::from_bytes(&id.to_bytes()), id);
}

#[test]
fn words_of_values() {
    assert_eq!(wide(word_from_address(TOKEN_A)), wide_address(TOKEN_A));
    assert_eq!(word_to_address(word_from_address(TOKEN_B)), TOKEN_B);
    assert_eq!(wide(word_from_u32(70000)), WideUint::from(70000u64));
    for n in [0i32, 1, -1, i32::MAX, i32::MIN] {
        assert_eq!(wide(word_from_i32(n)), wide_signed(n as i128));
    }
    assert_eq!(word_to_i24(word_from_i32(-8_388_608)), -8_388_608);
    assert_eq!(word_to_i24(word_from_i32(8_388_607)), 8_388_607);
    assert_eq!(word_to_u16(word_from_u32(0x1_0005)), 5);
    assert_eq!(word_to_u24(word_from_u32(0x0100_0007)), 7);
}

#[test]
fn values_are_read_as_by_the_abi() {
    // clean words and words with bits beyond the width of their types
    let dirty = WideUint::MAX - (WideUint::from(5u64) << 100) - (WideUint::from(9u64) << 20);
    for word in [WideUint::from(17u64), WideUint::MAX, dirty, WideUint::from(1u64) << 127] {
        let data = bytes_of(&[word, word, word, word, word]);
        let (a, b, c, d, e) = <(
            Int<128>,
            Uint<160>,
            Uint<128>,
            Int<24>,
            Uint<24>,
        ) as SolType>::abi_decode_sequence(&data).unwrap();
        let w = narrow(word);
        assert_eq!(word_to_i128(w), a);
        assert_eq!(wide(word_to_u160(w).to_u256()), b.to::<WideUint>());
        assert_eq!(word_to_u128(w), c);
        assert_eq!(word_to_i24(w), d.as_i32());
        assert_eq!(word_to_u24(w), e.to::<u32>());
        let address = <(AddressType,) as SolType>::abi_decode_sequence(&data[..32]).unwrap().0;
        assert_eq!(
            wide_address(word_to_address(w)),
            WideUint::from_be_bytes(address.into_word().0)
        );
    }
}

#[test]
fn a_key_is_encoded_word_by_word() {
    let key = key();
    assert_eq!(
        key.abi_encode(),
        bytes_of(&[
            wide_address(TOKEN_A),
            wide_address(TOKEN_B),
            WideUint::from(3000u64),
            wide_signed(-60),
            wide_address(HOOK),
        ])
    );
    // keys that differ have encodings that differ
    let other = PoolKey { tick_spacing: 60, ..key };
    assert_ne!(key.abi_encode(), other.abi_encode());
}

#[test]
fn an_identifier_is_the_hash_of_the_encoding() {
    let key = key();
    let id = PoolId::from(key);
    assert_eq!(id.to_bytes(), keccak256(key.abi_encode()).to_vec());
    let dynamic = key.with_dynamic_fee();
    assert_eq!(dynamic, PoolKey { fee: DYNAMIC_FEE, ..key });
    assert_ne!(PoolId::from(dynamic), id);
}

#[test]
fn a_known_key_has_its_known_identifier() {
    // the hash of 160 zero bytes
    let zero = Address::zero();
    let key = PoolKey { currency0: zero, currency1: zero, fee: 0, tick_spacing: 0, hooks: zero };
    assert_eq!(PoolId::from(key).to_bytes(), keccak256([0u8; 160]).to_vec());
}

#[test]
fn topics_are_the_hashes_of_signatures() {
    assert_eq!(
        swap_topic(),
        hash_of("Swap(bytes32,address,int128,int128,uint160,uint128,int24,uint24)")
    );
    assert_eq!(
        modify_liquidity_topic(),
        hash_of("ModifyLiquidity(bytes32,address,int24,int24,int256,bytes32)")
    );
    assert_eq!(
        pool_configured_topic(),
        hash_of("PoolConfigured(address,address,uint24,uint16,address,uint24)")
    );
    assert_eq!(
        pool_fees_configured_topic(),
        hash_of("PoolConfigured(address,address,uint16,uint24,uint24,uint24)")
    );
    assert_eq!(pool_removed_topic(), hash_of("PoolRemoved(address,address,uint24,int24)"));
}

#[test]
fn swaps_are_decoded() {
    let id = PoolId::from(key());
    let words = [
        wide_signed(-5),
        wide_signed(6),
        (WideUint::from(3u64) << 128) + WideUint::from(4u64),
        WideUint::from(u128::MAX),
        wide_signed(-887272),
        WideUint::from(3000u64),
    ];
    let swap = log(vec![swap_topic(), id, topic(wide_address(TOKEN_A))], &words);
    let expected = SwapEventData {
        sender: TOKEN_A,
        amount0: -5,
        amount1: 6,
        sqrt_price_x96: U160 { hi: 3, lo: 4 },
        liquidity: u128::MAX,
        tick: -887272,
        fee: 3000,
    };
    assert_eq!(decode_swap(&swap), Some((id, expected)));
    // another event, a missing topic, data that is too short
    assert_eq!(decode_modify_liquidity(&swap), None);
    assert_eq!(decode_swap(&log(vec![swap_topic(), id], &words)), None);
    assert_eq!(decode_swap(&log(vec![], &words)), None);
    let short = log(vec![swap_topic(), id, topic(WideUint::ZERO)], &words[..5]);
    assert_eq!(decode_swap(&short), None);
}

#[test]
fn changes_of_liquidity_are_decoded() {
    let id = PoolId::from(key());
    let salt = WideUint::from(99u64) << 200;
    let words = [wide_signed(-120), wide_signed(180), wide_signed(-1_000_000), salt];
    let change =
        log(vec![modify_liquidity_topic(), id, topic(wide_address(TOKEN_B))], &words);
    let expected = ModifyLiquidityEventData {
        sender: TOKEN_B,
        tick_lower: -120,
        tick_upper: 180,
        liquidity_delta: i128_to_i256(-1_000_000),
        salt: topic(salt),
    };
    assert_eq!(decode_modify_liquidity(&change), Some((id, expected)));
    assert_eq!(decode_swap(&change), None);
}

#[test]
fn events_of_the_controller_are_decoded() {
    let a = topic(wide_address(TOKEN_A));
    let b = topic(wide_address(TOKEN_B));
    let configured = log(
        vec![pool_configured_topic(), a, b, topic(WideUint::from(2500u64))],
        &[WideUint::from(60u64), wide_address(HOOK), WideUint::from(3000u64)],
    );
    assert_eq!(
        decode_pool_configured(&configured),
        Some(PoolConfiguredEvent {
            asset0: TOKEN_A,
            asset1: TOKEN_B,
            bundle_fee: 2500,
            tick_spacing: 60,
            hook: HOOK,
            fee_in_e6: 3000,
        })
    );
    let with_fees = log(
        vec![pool_fees_configured_topic(), a, b],
        &[
            WideUint::from(10u64),
            WideUint::from(1u64),
            WideUint::from(2u64),
            WideUint::from(3u64),
        ],
    );
    assert_eq!(
        decode_pool_fees_configured(&with_fees),
        Some(PoolFeesConfiguredEvent {
            asset0: TOKEN_A,
            asset1: TOKEN_B,
            tick_spacing: 10,
            bundle_fee: 1,
            unlocked_fee: 2,
            protocol_unlocked_fee: 3,
        })
    );
    let removed = log(
        vec![pool_removed_topic(), a, b, topic(WideUint::from(7u64))],
        &[wide_signed(-10)],
    );
    assert_eq!(
        decode_pool_removed(&removed),
        Some(PoolRemovedEvent {
            asset0: TOKEN_A,
            asset1: TOKEN_B,
            fee_in_e6: 7,
            tick_spacing: -10,
        })
    );
    assert_eq!(decode_pool_configured(&removed), None);
    assert_eq!(decode_pool_fees_configured(&configured), None);
    assert_eq!(decode_pool_removed(&with_fees), None);
}

#[test]
fn batches_of_fees_are_decoded() {
    let selector =
        &keccak256("batchUpdatePools((address,address,uint24,uint24,uint24)[])")[..4].to_vec();
    let words = [
        WideUint::from(32u64),
        WideUint::from(2u64),
        wide_address(TOKEN_A),
        wide_address(TOKEN_B),
        WideUint::from(1u64),
        WideUint::from(2u64),
        WideUint::from(3u64),
        wide_address(TOKEN_B),
        wide_address(HOOK),
        WideUint::from(4u64),
        WideUint::from(5u64),
        WideUint::from(0xff_ffffu64),
    ];
    let mut input = selector.clone();
    input.extend(bytes_of(&words));
    assert_eq!(
        decode_batch_updates(&input),
        Some(vec![
            BatchUpdate {
                asset_a: TOKEN_A,
                asset_b: TOKEN_B,
                bundle_fee: 1,
                unlocked_fee: 2,
                protocol_unlocked_fee: 3,
            },
            BatchUpdate {
                asset_a: TOKEN_B,
                asset_b: HOOK,
                bundle_fee: 4,
                unlocked_fee: 5,
                protocol_unlocked_fee: 0xff_ffff,
            },
        ])
    );
    // another selector, arguments that are cut off, nothing at all
    let mut other = input.clone();
    other[0] ^= 1;
    assert_eq!(decode_batch_updates(&other), None);
    assert_eq!(decode_batch_updates(&input[..input.len() - 32].to_vec()), None);
    assert_eq!(decode_batch_updates(&vec![]), None);
    // the same encoding as that of a list of uint
    let list = <(Array<Uint<256>>,) as SolType>::abi_encode_sequence(&(Vec::<WideUint>::new(),));
    let mut none = selector.clone();
    none.extend(list);
    assert_eq!(decode_batch_updates(&none), Some(vec![]));
}
