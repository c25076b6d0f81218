//! Words of bytes and of logs as the numbers that they spell out.
use vstd::prelude::*;

use crate::abi::{
    address_of, address_word, i128_of, i24_of, i32_word, limb_of_bytes, low_bits, u128_of, u160_of,
    u32_word, word_at,
};
use crate::events::{
    batch_arguments, batch_updates_of, limbs_word, modify_liquidity_of,
    pool_configured_of, pool_fees_configured_of, pool_removed_of, swap_of, Log,
};
use crate::pool_key::{
    keccak256_digest, key_encoding, key_encoding_words, pool_id_of, PoolKey,
};
use crate::words::{
    half_256, limbs_value, modulus_256, u256_view_injective, Address, I256, U256,
};

verus! {

/// The number that `n` bytes from `at` on spell out, the most significant first.
pub open spec fn number_of_bytes(bytes: Seq<u8>, at: int, n: nat) -> nat
    decreases n,
{
    if n == 0 {
        0
    } else {
        number_of_bytes(bytes, at, (n - 1) as nat) * 256 + bytes[at + n - 1] as nat
    }
}

/// The number that 32 bytes from `at` on spell out.
pub open spec fn number_at(bytes: Seq<u8>, at: int) -> nat {
    number_of_bytes(bytes, at, 32)
}

/// The signed number that a word spells out in two's complement.
pub open spec fn as_signed(n: nat) -> int {
    if n < half_256() {
        n as int
    } else {
        n - modulus_256()
    }
}

/// The number that eight bytes spell out, byte by byte.
proof fn eight_bytes(b0: u8, b1: u8, b2: u8, b3: u8, b4: u8, b5: u8, b6: u8, b7: u8)
    ensures
        ((b0 as u64) << 56 | (b1 as u64) << 48 | (b2 as u64) << 40 | (b3 as u64) << 32 | (b4 as u64)
            << 24 | (b5 as u64) << 16 | (b6 as u64) << 8 | (b7 as u64)) == b0
            * 0x100_0000_0000_0000 + b1 * 0x1_0000_0000_0000 + b2 * 0x100_0000_0000 + b3
            * 0x1_0000_0000 + b4 * 0x100_0000 + b5 * 0x1_0000 + b6 * 0x100 + b7,
{
    assert(((b0 as u64) << 56 | (b1 as u64) << 48 | (b2 as u64) << 40 | (b3 as u64) << 32 | (
    b4 as u64) << 24 | (b5 as u64) << 16 | (b6 as u64) << 8 | (b7 as u64)) == b0
        * 0x100_0000_0000_0000 + b1 * 0x1_0000_0000_0000 + b2 * 0x100_0000_0000 + b3
        * 0x1_0000_0000 + b4 * 0x100_0000 + b5 * 0x1_0000 + b6 * 0x100 + b7) by (bit_vector);
}

/// Eight more bytes make a number grow by their own number.
proof fn limb_behind(bytes: Seq<u8>, at: int, n: nat)
    ensures
        number_of_bytes(bytes, at, n + 8) == number_of_bytes(bytes, at, n)
            * 0x1_0000_0000_0000_0000 + limb_of_bytes(bytes, at + n),
{
    eight_bytes(
        bytes[at + n],
        bytes[at + n + 1],
        bytes[at + n + 2],
        bytes[at + n + 3],
        bytes[at + n + 4],
        bytes[at + n + 5],
        bytes[at + n + 6],
        bytes[at + n + 7],
    );
    reveal_with_fuel(number_of_bytes, 9);
}

/// A word that is read from bytes is the number that the 32 bytes spell out, the most
/// significant first.
pub proof fn word_is_its_bytes(bytes: Seq<u8>, at: int)
    ensures
        word_at(bytes, at)@ == number_at(bytes, at),
{
    assert(number_of_bytes(bytes, at, 0) == 0);
    limb_behind(bytes, at, 0);
    limb_behind(bytes, at, 8);
    limb_behind(bytes, at, 16);
    limb_behind(bytes, at, 24);
}

/// The remainder of a word by a power of two up to that of a limb is that of its lowest
/// limb.
proof fn remainder_of_limb(word: U256, m: int)
    requires
        m == 0x100_0000 || m == 0x1_0000,
    ensures
        word@ as int % m == word.l0 as int % m,
{
    let above = word.l1 + word.l2 * 0x1_0000_0000_0000_0000int + word.l3
        * 0x1_0000_0000_0000_0000_0000_0000_0000_0000int;
    let base = 0x1_0000_0000_0000_0000int;
    assert(word@ == word.l0 + base * above);
    let k = base / m;
    assert(base == k * m);
    let q = word.l0 as int / m;
    let r = word.l0 as int % m;
    assert(base * above == (k * above) * m) by (nonlinear_arith)
        requires
            base == k * m,
    ;
    assert(word@ == (q + k * above) * m + r) by (nonlinear_arith)
        requires
            word@ == word.l0 + (k * above) * m,
            word.l0 == q * m + r,
    ;
    vstd::arithmetic::div_mod::lemma_fundamental_div_mod_converse(
        word@ as int,
        m,
        q + k * above,
        r,
    );
}

/// The remainder of a word by the number of values of 160 bits, and by that of 128 bits.
proof fn remainder_of_limbs(word: U256)
    ensures
        word@ % 0x1_0000_0000_0000_0000_0000_0000_0000_0000_0000_0000nat == word.l0 + word.l1
            * 0x1_0000_0000_0000_0000int + (word.l2 % 0x1_0000_0000u64)
            * 0x1_0000_0000_0000_0000_0000_0000_0000_0000int,
        word@ % 0x1_0000_0000_0000_0000_0000_0000_0000_0000nat == word.l0 + word.l1
            * 0x1_0000_0000_0000_0000int,
{
    let high = word.l2 / 0x1_0000_0000u64;
    let low = word.l2 % 0x1_0000_0000u64;
    vstd::arithmetic::div_mod::lemma_fundamental_div_mod_converse(
        word@ as int,
        0x1_0000_0000_0000_0000_0000_0000_0000_0000_0000_0000int,
        high + word.l3 * 0x1_0000_0000int,
        word.l0 + word.l1 * 0x1_0000_0000_0000_0000int + low
            * 0x1_0000_0000_0000_0000_0000_0000_0000_0000int,
    );
    vstd::arithmetic::div_mod::lemma_fundamental_div_mod_converse(
        word@ as int,
        0x1_0000_0000_0000_0000_0000_0000_0000_0000int,
        word.l2 + word.l3 * 0x1_0000_0000_0000_0000int,
        word.l0 + word.l1 * 0x1_0000_0000_0000_0000int,
    );
}

/// The signed number of 128 bits that a word spells out.
proof fn signed_of_128_bits(word: U256)
    ensures
        spells_low_bits(i128_of(word) as int, word@, 0x1_0000_0000_0000_0000_0000_0000_0000_0000int),
{
    let values = 0x1_0000_0000_0000_0000_0000_0000_0000_0000int;
    let low = word.l0 + word.l1 * 0x1_0000_0000_0000_0000int;
    let high = word.l2 + word.l3 * 0x1_0000_0000_0000_0000int;
    assert(word@ == low + high * values);
    let signed = i128_of(word) as int;
    if word.l1 < 0x8000_0000_0000_0000u64 {
        assert(signed == low);
        vstd::arithmetic::div_mod::lemma_mod_multiples_basic(high, values);
    } else {
        assert(signed == low - values);
        vstd::arithmetic::div_mod::lemma_mod_multiples_basic(high + 1, values);
    }
}

/// The signed number of 24 bits that a word spells out.
proof fn signed_of_24_bits(word: U256)
    ensures
        spells_low_bits(i24_of(word) as int, word@, 0x100_0000),
{
    remainder_of_limb(word, 0x100_0000);
    let low = word.l0 as int % 0x100_0000;
    let q = word@ as int / 0x100_0000;
    assert(word@ == q * 0x100_0000 + low);
    if low >= 0x80_0000 {
        assert(word@ - i24_of(word) == (q + 1) * 0x100_0000);
    }
}

/// Whether a signed number is the one that the low bits of a word spell out in two's
/// complement, where `values` is how many numbers these bits can spell out.
pub open spec fn spells_low_bits(signed: int, word: nat, values: int) -> bool {
    &&& -values <= 2 * signed < values
    &&& (word - signed) % values == 0
}

/// What is read from a word is the number in its low bits: of 160 bits for an address
/// and for a price, of 128 bits for an amount, and of 24 or 16 bits for a fee or a
/// spacing, and for a signed amount or a tick in two's complement.
pub proof fn words_are_read_as_numbers(word: U256)
    ensures
        address_of(word)@ == word@ % 0x1_0000_0000_0000_0000_0000_0000_0000_0000_0000_0000nat,
        u160_of(word)@ == word@ % 0x1_0000_0000_0000_0000_0000_0000_0000_0000_0000_0000nat,
        u128_of(word) == word@ % 0x1_0000_0000_0000_0000_0000_0000_0000_0000nat,
        low_bits(word, 0x100_0000) == word@ % 0x100_0000nat,
        low_bits(word, 0x1_0000) == word@ % 0x1_0000nat,
        spells_low_bits(i128_of(word) as int, word@, 0x1_0000_0000_0000_0000_0000_0000_0000_0000int),
        spells_low_bits(i24_of(word) as int, word@, 0x100_0000),
        (I256 { raw: word })@ == as_signed(word@),
{
    let limb: u64 = word.l2;
    assert((limb as u32) as u64 == limb % 0x1_0000_0000u64) by (bit_vector);
    remainder_of_limb(word, 0x100_0000);
    remainder_of_limb(word, 0x1_0000);
    remainder_of_limbs(word);
    signed_of_128_bits(word);
    signed_of_24_bits(word);
}

/// The words that a key is encoded with hold its fields as numbers: the addresses and
/// the fee as they are, and the spacing in two's complement.
pub proof fn words_hold_their_numbers(address: Address, fee: u32, spacing: i32)
    ensures
        address_word(address)@ == address@,
        u32_word(fee)@ == fee,
        as_signed(i32_word(spacing)@) == spacing,
{
}

/// A key is encoded as five words: its lower currency, its higher one, its fee, its
/// spacing and its hooks, in this order and each as the number that it is.
pub proof fn key_is_encoded_word_by_word(key: PoolKey)
    ensures
        key_encoding(key).len() == 160,
        number_at(key_encoding(key), 0) == key.currency0@,
        number_at(key_encoding(key), 32) == key.currency1@,
        number_at(key_encoding(key), 64) == key.fee,
        as_signed(number_at(key_encoding(key), 96)) == key.tick_spacing,
        number_at(key_encoding(key), 128) == key.hooks@,
{
    let bytes = key_encoding(key);
    key_encoding_words(key);
    word_is_its_bytes(bytes, 0);
    word_is_its_bytes(bytes, 32);
    word_is_its_bytes(bytes, 64);
    word_is_its_bytes(bytes, 96);
    word_is_its_bytes(bytes, 128);
    words_hold_their_numbers(key.currency0, key.fee, key.tick_spacing);
    words_hold_their_numbers(key.currency1, key.fee, key.tick_spacing);
    words_hold_their_numbers(key.hooks, key.fee, key.tick_spacing);
}

/// The identifier of a pool is the digest of its encoded key, as a number; so pools have
/// the same identifier where their keys have the same digest, and no others have.
pub proof fn identifier_is_the_digest(a: PoolKey, b: PoolKey)
    ensures
        pool_id_of(a).word@ == number_at(keccak256_digest(key_encoding(a)), 0),
        pool_id_of(a) == pool_id_of(b) <==> number_at(keccak256_digest(key_encoding(a)), 0)
            == number_at(keccak256_digest(key_encoding(b)), 0),
{
    word_is_its_bytes(keccak256_digest(key_encoding(a)), 0);
    word_is_its_bytes(keccak256_digest(key_encoding(b)), 0);
    if pool_id_of(a).word@ == pool_id_of(b).word@ {
        u256_view_injective(pool_id_of(a).word, pool_id_of(b).word);
    }
}

/// What a swap log says. A log tells of a swap if and only if it has the signature of
/// one, three topics and six words of data; then it gives the pool, the sender, both
/// amounts, the price, the liquidity, the tick and the fee in this order.
pub proof fn swap_log_is_read(log: Log)
    ensures
        swap_of(log) is Some <==> log.topics@.len() == 3 && log.topics@[0].word@
            == 0x40e9cecb9f5f1f1c5b9c97dec2917b7ee92e57ba5563708daca94dd84ad7112fnat
            && log.data@.len() >= 192,
        swap_of(log) matches Some((id, event)) ==> {
            let data = log.data@;
            &&& id == log.topics@[1]
            &&& event.sender@ == log.topics@[2].word@
                % 0x1_0000_0000_0000_0000_0000_0000_0000_0000_0000_0000nat
            &&& spells_low_bits(
                event.amount0 as int,
                number_at(data, 0),
                0x1_0000_0000_0000_0000_0000_0000_0000_0000int,
            )
            &&& spells_low_bits(
                event.amount1 as int,
                number_at(data, 32),
                0x1_0000_0000_0000_0000_0000_0000_0000_0000int,
            )
            &&& event.sqrt_price_x96@ == number_at(data, 64)
                % 0x1_0000_0000_0000_0000_0000_0000_0000_0000_0000_0000nat
            &&& event.liquidity == number_at(data, 96)
                % 0x1_0000_0000_0000_0000_0000_0000_0000_0000nat
            &&& spells_low_bits(event.tick as int, number_at(data, 128), 0x100_0000)
            &&& event.fee == number_at(data, 160) % 0x100_0000nat
        },
{
    let data = log.data@;
    known_word(
        log.topics@[0].word,
        0xaca94dd84ad7112f,
        0xe92e57ba5563708d,
        0x5b9c97dec2917b7e,
        0x40e9cecb9f5f1f1c,
    );
    words_are_read_as_numbers(log.topics@[2].word);
    word_is_its_bytes(data, 0);
    word_is_its_bytes(data, 32);
    word_is_its_bytes(data, 64);
    word_is_its_bytes(data, 96);
    word_is_its_bytes(data, 128);
    word_is_its_bytes(data, 160);
    words_are_read_as_numbers(word_at(data, 0));
    words_are_read_as_numbers(word_at(data, 32));
    words_are_read_as_numbers(word_at(data, 64));
    words_are_read_as_numbers(word_at(data, 96));
    words_are_read_as_numbers(word_at(data, 128));
    words_are_read_as_numbers(word_at(data, 160));
}

/// A word is known by its limbs.
proof fn known_word(word: U256, l0: u64, l1: u64, l2: u64, l3: u64)
    ensures
        word@ == (U256 { l0, l1, l2, l3 })@ ==> word == (U256 { l0, l1, l2, l3 }),
{
    if word@ == (U256 { l0, l1, l2, l3 })@ {
        u256_view_injective(word, U256 { l0, l1, l2, l3 });
    }
}

/// What a liquidity log says. A log tells of a change of liquidity if and only if it has
/// the signature of one, three topics and four words of data; then it gives the pool,
/// the sender, the lower tick, the upper tick, the change and the salt in this order.
pub proof fn liquidity_log_is_read(log: Log)
    ensures
        modify_liquidity_of(log) is Some <==> log.topics@.len() == 3 && log.topics@[0].word@
            == 0xf208f4912782fd25c7f114ca3723a2d5dd6f3bcc3ac8db5af63baa85f711d5ecnat
            && log.data@.len() >= 128,
        modify_liquidity_of(log) matches Some((id, event)) ==> {
            let data = log.data@;
            &&& id == log.topics@[1]
            &&& event.sender@ == log.topics@[2].word@
                % 0x1_0000_0000_0000_0000_0000_0000_0000_0000_0000_0000nat
            &&& spells_low_bits(event.tick_lower as int, number_at(data, 0), 0x100_0000)
            &&& spells_low_bits(event.tick_upper as int, number_at(data, 32), 0x100_0000)
            &&& event.liquidity_delta@ == as_signed(number_at(data, 64))
            &&& event.salt.word@ == number_at(data, 96)
        },
{
    let data = log.data@;
    known_word(
        log.topics@[0].word,
        0xf63baa85f711d5ec,
        0xdd6f3bcc3ac8db5a,
        0xc7f114ca3723a2d5,
        0xf208f4912782fd25,
    );
    words_are_read_as_numbers(log.topics@[2].word);
    word_is_its_bytes(data, 0);
    word_is_its_bytes(data, 32);
    word_is_its_bytes(data, 64);
    word_is_its_bytes(data, 96);
    words_are_read_as_numbers(word_at(data, 0));
    words_are_read_as_numbers(word_at(data, 32));
    words_are_read_as_numbers(word_at(data, 64));
}

/// What a log of a configured pool says, in the form that gives the swap fee alone.
pub proof fn configured_log_is_read(log: Log)
    ensures
        pool_configured_of(log) is Some <==> log.topics@.len() == 4 && log.topics@[0].word@
            == 0x922380e7f1a0cdb276c5ecdc616940f06f5d9accd393fbafab1bde59bab76a16nat
            && log.data@.len() >= 96,
        pool_configured_of(log) matches Some(event) ==> {
            let data = log.data@;
            &&& event.asset0@ == log.topics@[1].word@
                % 0x1_0000_0000_0000_0000_0000_0000_0000_0000_0000_0000nat
            &&& event.asset1@ == log.topics@[2].word@
                % 0x1_0000_0000_0000_0000_0000_0000_0000_0000_0000_0000nat
            &&& event.bundle_fee == log.topics@[3].word@ % 0x100_0000nat
            &&& event.tick_spacing == number_at(data, 0) % 0x1_0000nat
            &&& event.hook@ == number_at(data, 32)
                % 0x1_0000_0000_0000_0000_0000_0000_0000_0000_0000_0000nat
            &&& event.fee_in_e6 == number_at(data, 64) % 0x100_0000nat
        },
{
    let data = log.data@;
    known_word(
        log.topics@[0].word,
        0xab1bde59bab76a16,
        0x6f5d9accd393fbaf,
        0x76c5ecdc616940f0,
        0x922380e7f1a0cdb2,
    );
    words_are_read_as_numbers(log.topics@[1].word);
    words_are_read_as_numbers(log.topics@[2].word);
    words_are_read_as_numbers(log.topics@[3].word);
    word_is_its_bytes(data, 0);
    word_is_its_bytes(data, 32);
    word_is_its_bytes(data, 64);
    words_are_read_as_numbers(word_at(data, 0));
    words_are_read_as_numbers(word_at(data, 32));
    words_are_read_as_numbers(word_at(data, 64));
}

/// What a log of a configured pool says, in the form that gives all fees.
pub proof fn configured_log_with_fees_is_read(log: Log)
    ensures
        pool_fees_configured_of(log) is Some <==> log.topics@.len() == 3 && log.topics@[0].word@
            == 0xf325a037d71efc98bc41dc5257edefd43a1d1162e206373e53af271a7a3224e9nat
            && log.data@.len() >= 128,
        pool_fees_configured_of(log) matches Some(event) ==> {
            let data = log.data@;
            &&& event.asset0@ == log.topics@[1].word@
                % 0x1_0000_0000_0000_0000_0000_0000_0000_0000_0000_0000nat
            &&& event.asset1@ == log.topics@[2].word@
                % 0x1_0000_0000_0000_0000_0000_0000_0000_0000_0000_0000nat
            &&& event.tick_spacing == number_at(data, 0) % 0x1_0000nat
            &&& event.bundle_fee == number_at(data, 32) % 0x100_0000nat
            &&& event.unlocked_fee == number_at(data, 64) % 0x100_0000nat
            &&& event.protocol_unlocked_fee == number_at(data, 96) % 0x100_0000nat
        },
{
    let data = log.data@;
    known_word(
        log.topics@[0].word,
        0x53af271a7a3224e9,
        0x3a1d1162e206373e,
        0xbc41dc5257edefd4,
        0xf325a037d71efc98,
    );
    words_are_read_as_numbers(log.topics@[1].word);
    words_are_read_as_numbers(log.topics@[2].word);
    word_is_its_bytes(data, 0);
    word_is_its_bytes(data, 32);
    word_is_its_bytes(data, 64);
    word_is_its_bytes(data, 96);
    words_are_read_as_numbers(word_at(data, 0));
    words_are_read_as_numbers(word_at(data, 32));
    words_are_read_as_numbers(word_at(data, 64));
    words_are_read_as_numbers(word_at(data, 96));
}

/// What a log of a removed pool says.
pub proof fn removed_log_is_read(log: Log)
    ensures
        pool_removed_of(log) is Some <==> log.topics@.len() == 4 && log.topics@[0].word@
            == 0xfc53c35911d26a5d1babe0aeca573267203525de214a6d6d2da83e30f4c84823nat
            && log.data@.len() >= 32,
        pool_removed_of(log) matches Some(event) ==> {
            &&& event.asset0@ == log.topics@[1].word@
                % 0x1_0000_0000_0000_0000_0000_0000_0000_0000_0000_0000nat
            &&& event.asset1@ == log.topics@[2].word@
                % 0x1_0000_0000_0000_0000_0000_0000_0000_0000_0000_0000nat
            &&& event.fee_in_e6 == log.topics@[3].word@ % 0x100_0000nat
            &&& spells_low_bits(event.tick_spacing as int, number_at(log.data@, 0), 0x100_0000)
        },
{
    known_word(
        log.topics@[0].word,
        0x2da83e30f4c84823,
        0x203525de214a6d6d,
        0x1babe0aeca573267,
        0xfc53c35911d26a5d,
    );
    words_are_read_as_numbers(log.topics@[1].word);
    words_are_read_as_numbers(log.topics@[2].word);
    words_are_read_as_numbers(log.topics@[3].word);
    word_is_its_bytes(log.data@, 0);
    words_are_read_as_numbers(word_at(log.data@, 0));
}

/// What a call that changes fees says: one whose first four bytes spell out the selector
/// of `batchUpdatePools` gives the entries of its arguments, in their order, each with
/// both of its assets and its three fees; any other call gives none.
pub proof fn batch_call_is_read(input: Seq<u8>, i: int)
    ensures
        input.len() < 4 || number_of_bytes(input, 0, 4) != 0x4d2bf47c ==> batch_updates_of(input)
            is None,
        input.len() >= 4 && number_of_bytes(input, 0, 4) == 0x4d2bf47c ==> match batch_arguments(
            input.subrange(4, input.len() as int),
        ) {
            None => batch_updates_of(input) is None,
            Some(arguments) => batch_updates_of(input) matches Some(entries) && {
                &&& entries.len() == arguments.len()
                &&& 0 <= i < entries.len() ==> {
                    &&& entries[i].asset_a@ == limbs_value(arguments[i].0@)
                        % 0x1_0000_0000_0000_0000_0000_0000_0000_0000_0000_0000nat
                    &&& entries[i].asset_b@ == limbs_value(arguments[i].1@)
                        % 0x1_0000_0000_0000_0000_0000_0000_0000_0000_0000_0000nat
                    &&& entries[i].bundle_fee == arguments[i].2
                    &&& entries[i].unlocked_fee == arguments[i].3
                    &&& entries[i].protocol_unlocked_fee == arguments[i].4
                }
            },
        },
{
    reveal_with_fuel(number_of_bytes, 5);
    if let Some(arguments) = batch_arguments(input.subrange(4, input.len() as int)) {
        if 0 <= i < arguments.len() {
            words_are_read_as_numbers(limbs_word(arguments[i].0));
            words_are_read_as_numbers(limbs_word(arguments[i].1));
            assert(limbs_word(arguments[i].0)@ == limbs_value(arguments[i].0@));
            assert(limbs_word(arguments[i].1)@ == limbs_value(arguments[i].1@));
        }
    }
}

} // verus!
