//! Words in the byte form of the contract ABI: 32 bytes, most significant
//! first.
use vstd::prelude::*;

use crate::tick_bitmap::limb;
use crate::words::{Address, U160, U256};

verus! {

/// The `i`-th byte of a word.
pub open spec fn word_byte(word: U256, i: int) -> u8 {
    ((limb(word, (31 - i) / 8) >> ((8 * ((31 - i) % 8)) as u64)) & 0xff) as u8
}

/// The bytes of a word.
pub open spec fn word_bytes(word: U256) -> Seq<u8> {
    Seq::new(32, |i: int| word_byte(word, i))
}

/// The number that eight bytes spell out.
pub open spec fn limb_of_bytes(bytes: Seq<u8>, at: int) -> u64 {
    (bytes[at] as u64) << 56 | (bytes[at + 1] as u64) << 48 | (bytes[at + 2] as u64) << 40 | (bytes[at
        + 3] as u64) << 32 | (bytes[at + 4] as u64) << 24 | (bytes[at + 5] as u64) << 16 | (bytes[at
        + 6] as u64) << 8 | (bytes[at + 7] as u64)
}

/// The word that 32 bytes from `at` on spell out.
pub open spec fn word_at(bytes: Seq<u8>, at: int) -> U256 {
    U256 {
        l3: limb_of_bytes(bytes, at),
        l2: limb_of_bytes(bytes, at + 8),
        l1: limb_of_bytes(bytes, at + 16),
        l0: limb_of_bytes(bytes, at + 24),
    }
}

/// A limb is spelled out by its own bytes.
proof fn limb_roundtrip(x: u64)
    ensures
        (((x >> 56) & 0xff) as u8 as u64) << 56 | (((x >> 48) & 0xff) as u8 as u64) << 48 | (((x
            >> 40) & 0xff) as u8 as u64) << 40 | (((x >> 32) & 0xff) as u8 as u64) << 32 | (((x
            >> 24) & 0xff) as u8 as u64) << 24 | (((x >> 16) & 0xff) as u8 as u64) << 16 | (((x
            >> 8) & 0xff) as u8 as u64) << 8 | (((x >> 0) & 0xff) as u8 as u64) == x,
{
    assert((((x >> 56) & 0xff) as u8 as u64) << 56 | (((x >> 48) & 0xff) as u8 as u64) << 48 | (((x
        >> 40) & 0xff) as u8 as u64) << 40 | (((x >> 32) & 0xff) as u8 as u64) << 32 | (((x >> 24)
        & 0xff) as u8 as u64) << 24 | (((x >> 16) & 0xff) as u8 as u64) << 16 | (((x >> 8)
        & 0xff) as u8 as u64) << 8 | (((x >> 0) & 0xff) as u8 as u64) == x) by (bit_vector);
}

/// Reading the bytes of a limb of a word gives the limb back.
proof fn limb_at_roundtrip(bytes: Seq<u8>, at: int, word: U256, k: int)
    requires
        0 <= k < 4,
        forall|i: int| 0 <= i < 32 ==> bytes[at + i] == #[trigger] word_byte(word, i),
    ensures
        limb_of_bytes(bytes, at + 8 * k) == limb(word, 3 - k),
{
    let x = limb(word, 3 - k);
    limb_roundtrip(x);
    assert(bytes[at + 8 * k] == ((x >> 56) & 0xff) as u8) by {
        assert(bytes[at + 8 * k] == word_byte(word, 8 * k));
    }
    assert(bytes[at + 8 * k + 1] == ((x >> 48) & 0xff) as u8) by {
        assert(bytes[at + (8 * k + 1)] == word_byte(word, 8 * k + 1));
    }
    assert(bytes[at + 8 * k + 2] == ((x >> 40) & 0xff) as u8) by {
        assert(bytes[at + (8 * k + 2)] == word_byte(word, 8 * k + 2));
    }
    assert(bytes[at + 8 * k + 3] == ((x >> 32) & 0xff) as u8) by {
        assert(bytes[at + (8 * k + 3)] == word_byte(word, 8 * k + 3));
    }
    assert(bytes[at + 8 * k + 4] == ((x >> 24) & 0xff) as u8) by {
        assert(bytes[at + (8 * k + 4)] == word_byte(word, 8 * k + 4));
    }
    assert(bytes[at + 8 * k + 5] == ((x >> 16) & 0xff) as u8) by {
        assert(bytes[at + (8 * k + 5)] == word_byte(word, 8 * k + 5));
    }
    assert(bytes[at + 8 * k + 6] == ((x >> 8) & 0xff) as u8) by {
        assert(bytes[at + (8 * k + 6)] == word_byte(word, 8 * k + 6));
    }
    assert(bytes[at + 8 * k + 7] == ((x >> 0) & 0xff) as u8) by {
        assert(bytes[at + (8 * k + 7)] == word_byte(word, 8 * k + 7));
    }
}

/// Reading the bytes of a word gives the word back, wherever they stand.
pub proof fn word_roundtrip(bytes: Seq<u8>, at: int, word: U256)
    requires
        forall|i: int| 0 <= i < 32 ==> bytes[at + i] == #[trigger] word_byte(word, i),
    ensures
        word_at(bytes, at) == word,
{
    limb_at_roundtrip(bytes, at, word, 0);
    limb_at_roundtrip(bytes, at, word, 1);
    limb_at_roundtrip(bytes, at, word, 2);
    limb_at_roundtrip(bytes, at, word, 3);
}

/// Appends the bytes of a word.
pub fn push_word(out: &mut Vec<u8>, word: U256)
    ensures
        final(out)@ == old(out)@ + word_bytes(word),
{
    let mut i: u64 = 0;
    while i < 32
        invariant
            i <= 32,
            out@ == old(out)@ + word_bytes(word).take(i as int),
        decreases 32 - i,
    {
        let k: u64 = (31 - i) / 8;
        let limb: u64 = if k == 0 {
            word.l0
        } else if k == 1 {
            word.l1
        } else if k == 2 {
            word.l2
        } else {
            word.l3
        };
        let shift: u64 = 8 * ((31 - i) % 8);
        let byte: u8 = ((limb >> shift) & 0xff) as u8;
        out.push(byte);
        i = i + 1;
        assert(word_bytes(word).take(i as int) =~= word_bytes(word).take(i - 1).push(byte));
    }
    assert(word_bytes(word).take(32) =~= word_bytes(word));
}

/// The number that eight bytes spell out.
fn read_limb(bytes: &Vec<u8>, at: usize) -> (r: u64)
    requires
        at + 8 <= bytes.len(),
    ensures
        r == limb_of_bytes(bytes@, at as int),
{
    (bytes[at] as u64) << 56 | (bytes[at + 1] as u64) << 48 | (bytes[at + 2] as u64) << 40 | (bytes[at
        + 3] as u64) << 32 | (bytes[at + 4] as u64) << 24 | (bytes[at + 5] as u64) << 16 | (bytes[at
        + 6] as u64) << 8 | (bytes[at + 7] as u64)
}

/// The word that the bytes from `at` on spell out.
pub fn read_word(bytes: &Vec<u8>, at: usize) -> (r: U256)
    requires
        at + 32 <= bytes.len(),
    ensures
        r == word_at(bytes@, at as int),
{
    U256 {
        l3: read_limb(bytes, at),
        l2: read_limb(bytes, at + 8),
        l1: read_limb(bytes, at + 16),
        l0: read_limb(bytes, at + 24),
    }
}

/// The address in the low bytes of a word.
pub open spec fn address_of(word: U256) -> Address {
    Address {
        hi: word.l2 as u32,
        lo: (word.l0 + word.l1 * 0x1_0000_0000_0000_0000int) as u128,
    }
}

/// The word that holds an address in its low bytes.
pub open spec fn address_word(address: Address) -> U256 {
    U256 {
        l0: (address.lo as int % 0x1_0000_0000_0000_0000int) as u64,
        l1: (address.lo as int / 0x1_0000_0000_0000_0000int) as u64,
        l2: address.hi as u64,
        l3: 0,
    }
}

/// The word that holds a 32-bit unsigned number.
pub open spec fn u32_word(n: u32) -> U256 {
    U256 { l0: n as u64, l1: 0, l2: 0, l3: 0 }
}

/// The word that holds a signed number, with the sign in all higher bits.
pub open spec fn i32_word(n: i32) -> U256 {
    if n >= 0 {
        U256 { l0: n as u64, l1: 0, l2: 0, l3: 0 }
    } else {
        U256 {
            l0: (n + 0x1_0000_0000_0000_0000int) as u64,
            l1: u64::MAX,
            l2: u64::MAX,
            l3: u64::MAX,
        }
    }
}

/// The number in the low bits of a word, below a power of two.
pub open spec fn low_bits(word: U256, modulus: int) -> int {
    word.l0 as int % modulus
}

/// The signed 24-bit number in the low bits of a word.
pub open spec fn i24_of(word: U256) -> i32 {
    let low = low_bits(word, 0x100_0000);
    if low < 0x80_0000 {
        low as i32
    } else {
        (low - 0x100_0000) as i32
    }
}

/// The 128-bit number in the low bytes of a word.
pub open spec fn u128_of(word: U256) -> u128 {
    (word.l0 + word.l1 * 0x1_0000_0000_0000_0000int) as u128
}

/// The signed 128-bit number in the low bytes of a word.
pub open spec fn i128_of(word: U256) -> i128 {
    if word.l1 < 0x8000_0000_0000_0000u64 {
        u128_of(word) as i128
    } else {
        (u128_of(word) - 0x1_0000_0000_0000_0000_0000_0000_0000_0000int) as i128
    }
}

/// The 160-bit number in the low bytes of a word.
pub open spec fn u160_of(word: U256) -> U160 {
    U160 {
        hi: word.l2 as u32,
        lo: (word.l0 + word.l1 * 0x1_0000_0000_0000_0000int) as u128,
    }
}

/// An address is what its word holds.
pub proof fn address_roundtrip(address: Address)
    ensures
        address_of(address_word(address)) == address,
{
}

/// Two numbers with the same word are the same number.
pub proof fn i32_word_injective(a: i32, b: i32)
    requires
        i32_word(a) == i32_word(b),
    ensures
        a == b,
{
}

/// The word of an address.
pub fn word_from_address(address: Address) -> (r: U256)
    ensures
        r == address_word(address),
{
    U256 {
        l0: (address.lo % 0x1_0000_0000_0000_0000u128) as u64,
        l1: (address.lo / 0x1_0000_0000_0000_0000u128) as u64,
        l2: address.hi as u64,
        l3: 0,
    }
}

/// The word of an unsigned number.
pub fn word_from_u32(n: u32) -> (r: U256)
    ensures
        r == u32_word(n),
{
    U256 { l0: n as u64, l1: 0, l2: 0, l3: 0 }
}

/// The word of a signed number.
pub fn word_from_i32(n: i32) -> (r: U256)
    ensures
        r == i32_word(n),
{
    if n >= 0 {
        U256 { l0: n as u64, l1: 0, l2: 0, l3: 0 }
    } else {
        let gap: u64 = (-(n as i64)) as u64;
        U256 { l0: u64::MAX - gap + 1, l1: u64::MAX, l2: u64::MAX, l3: u64::MAX }
    }
}

/// The address in the low bytes of a word.
pub fn word_to_address(word: U256) -> (r: Address)
    ensures
        r == address_of(word),
{
    Address {
        hi: word.l2 as u32,
        lo: word.l1 as u128 * 0x1_0000_0000_0000_0000u128 + word.l0 as u128,
    }
}

/// The 24-bit number in the low bits of a word.
pub fn word_to_u24(word: U256) -> (r: u32)
    ensures
        r == low_bits(word, 0x100_0000),
{
    (word.l0 % 0x100_0000) as u32
}

/// The 16-bit number in the low bits of a word.
pub fn word_to_u16(word: U256) -> (r: u16)
    ensures
        r == low_bits(word, 0x1_0000),
{
    (word.l0 % 0x1_0000) as u16
}

/// The signed 24-bit number in the low bits of a word.
pub fn word_to_i24(word: U256) -> (r: i32)
    ensures
        r == i24_of(word),
        -0x80_0000 <= r < 0x80_0000,
{
    let low: i32 = (word.l0 % 0x100_0000) as i32;
    if low < 0x80_0000 {
        low
    } else {
        low - 0x100_0000
    }
}

/// The 128-bit number in the low bytes of a word.
pub fn word_to_u128(word: U256) -> (r: u128)
    ensures
        r == u128_of(word),
{
    word.l1 as u128 * 0x1_0000_0000_0000_0000u128 + word.l0 as u128
}

/// The signed 128-bit number in the low bytes of a word.
pub fn word_to_i128(word: U256) -> (r: i128)
    ensures
        r == i128_of(word),
{
    let low: u128 = word_to_u128(word);
    if word.l1 < 0x8000_0000_0000_0000 {
        low as i128
    } else {
        let gap: u128 = u128::MAX - low;
        -(gap as i128) - 1
    }
}

/// The 160-bit number in the low bytes of a word.
pub fn word_to_u160(word: U256) -> (r: U160)
    ensures
        r == u160_of(word),
{
    U160 {
        hi: word.l2 as u32,
        lo: word.l1 as u128 * 0x1_0000_0000_0000_0000u128 + word.l0 as u128,
    }
}

} // verus!
