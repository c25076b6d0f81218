//! Pool keys and the identifiers that follow from them.
use vstd::prelude::*;

use crate::abi::{
    address_roundtrip, address_word, i32_word, i32_word_injective, push_word, read_word, u32_word,
    word_at, word_byte, word_bytes, word_from_address, word_from_i32, word_from_u32,
    word_roundtrip,
};
use crate::words::{Address, PoolId, B256, U256};

verus! {

/// The fee of a key that marks the fee of its pool as dynamic.
pub const DYNAMIC_FEE: u32 = 0x80_0000;

/// What identifies a pool.
#[derive(Clone, Copy, Debug, PartialEq, Eq, Structural, Hash)]
pub struct PoolKey {
    /// The lower currency of the pool, sorted numerically
    pub currency0: Address,
    /// The higher currency of the pool, sorted numerically
    pub currency1: Address,
    /// The pool LP fee, capped at 1_000_000. If the highest bit is 1, the pool
    /// has a dynamic fee and must be exactly equal to 0x800000
    pub fee: u32,
    /// Ticks that involve positions must be a multiple of tick spacing
    pub tick_spacing: i32,
    /// The hooks of the pool
    pub hooks: Address,
}

/// Pool key with fee configuration
#[derive(Clone, Copy, Debug, PartialEq, Eq, Structural, Hash)]
pub struct PoolKeyWithFees {
    pub pool_key: PoolKey,
    pub bundle_fee: u32,
    pub swap_fee: u32,
    pub protocol_fee: u32,
}

/// The ABI encoding of a key: its five fields, one word each.
pub open spec fn key_encoding(key: PoolKey) -> Seq<u8> {
    word_bytes(address_word(key.currency0)) + word_bytes(address_word(key.currency1)) + word_bytes(
        u32_word(key.fee),
    ) + word_bytes(i32_word(key.tick_spacing)) + word_bytes(address_word(key.hooks))
}

/// The bytes of a word that stands behind others in a sequence.
proof fn word_behind(front: Seq<u8>, word: U256, back: Seq<u8>)
    ensures
        word_at(front + word_bytes(word) + back, front.len() as int) == word,
{
    let all = front + word_bytes(word) + back;
    assert forall|i: int| 0 <= i < 32 implies all[front.len() + i] == #[trigger] word_byte(
        word,
        i,
    ) by {}
    word_roundtrip(all, front.len() as int, word);
}

/// The fields of a key can be read off its encoding.
pub proof fn key_encoding_words(key: PoolKey)
    ensures
        key_encoding(key).len() == 160,
        word_at(key_encoding(key), 0) == address_word(key.currency0),
        word_at(key_encoding(key), 32) == address_word(key.currency1),
        word_at(key_encoding(key), 64) == u32_word(key.fee),
        word_at(key_encoding(key), 96) == i32_word(key.tick_spacing),
        word_at(key_encoding(key), 128) == address_word(key.hooks),
{
    let none = Seq::<u8>::empty();
    let w0 = word_bytes(address_word(key.currency0));
    let w1 = word_bytes(address_word(key.currency1));
    let w2 = word_bytes(u32_word(key.fee));
    let w3 = word_bytes(i32_word(key.tick_spacing));
    let w4 = word_bytes(address_word(key.hooks));
    let all = key_encoding(key);
    word_behind(none, address_word(key.currency0), w1 + w2 + w3 + w4);
    assert(none + w0 + (w1 + w2 + w3 + w4) =~= all);
    word_behind(w0, address_word(key.currency1), w2 + w3 + w4);
    assert(w0 + w1 + (w2 + w3 + w4) =~= all);
    word_behind(w0 + w1, u32_word(key.fee), w3 + w4);
    assert(w0 + w1 + w2 + (w3 + w4) =~= all);
    word_behind(w0 + w1 + w2, i32_word(key.tick_spacing), w4);
    assert(w0 + w1 + w2 + w3 + w4 =~= all);
    word_behind(w0 + w1 + w2 + w3, address_word(key.hooks), none);
    assert(w0 + w1 + w2 + w3 + w4 + none =~= all);
}

/// Different keys have different encodings, so that keys share an identifier
/// only where their encodings share a hash.
pub proof fn key_encoding_injective(a: PoolKey, b: PoolKey)
    requires
        key_encoding(a) == key_encoding(b),
    ensures
        a == b,
{
    key_encoding_words(a);
    key_encoding_words(b);
    address_roundtrip(a.currency0);
    address_roundtrip(b.currency0);
    address_roundtrip(a.currency1);
    address_roundtrip(b.currency1);
    address_roundtrip(a.hooks);
    address_roundtrip(b.hooks);
    i32_word_injective(a.tick_spacing, b.tick_spacing);
}

/// The digest that `alloy_primitives::keccak256` gives some bytes.
pub uninterp spec fn keccak256_digest(bytes: Seq<u8>) -> Seq<u8>;

/// `alloy_primitives::keccak256`: the named digest, 32 bytes long.
#[verifier::external_body]
fn keccak256(bytes: &Vec<u8>) -> (r: Vec<u8>)
    ensures
        r@ == keccak256_digest(bytes@),
        r@.len() == 32,
{
    alloy_primitives::keccak256(bytes).to_vec()
}

impl B256 {
    /// The identifier that 32 bytes spell out.
    pub fn from_bytes(bytes: &Vec<u8>) -> (r: B256)
        requires
            bytes@.len() >= 32,
        ensures
            r == (B256 { word: word_at(bytes@, 0) }),
    {
        B256 { word: read_word(bytes, 0) }
    }

    /// The bytes of the identifier.
    pub fn to_bytes(&self) -> (r: Vec<u8>)
        ensures
            r@ == word_bytes(self.word),
    {
        let mut out: Vec<u8> = Vec::new();
        push_word(&mut out, self.word);
        assert(out@ =~= word_bytes(self.word));
        out
    }
}

/// Reading the bytes of an identifier gives the identifier back.
pub proof fn identifier_roundtrip(id: B256)
    ensures
        word_at(word_bytes(id.word), 0) == id.word,
{
    assert forall|i: int| 0 <= i < 32 implies word_bytes(id.word)[0 + i] == #[trigger] word_byte(
        id.word,
        i,
    ) by {}
    word_roundtrip(word_bytes(id.word), 0, id.word);
}

/// The identifier of a pool: the hash of its key.
pub open spec fn pool_id_of(key: PoolKey) -> PoolId {
    B256 { word: word_at(keccak256_digest(key_encoding(key)), 0) }
}

/// The key that the pool of a public key goes by on chain: the same with a
/// dynamic fee.
pub open spec fn private_key_of(key: PoolKey) -> PoolKey {
    PoolKey { fee: DYNAMIC_FEE, ..key }
}

/// The key that a pool goes by on chain differs from its public one in the fee alone,
/// which marks the fee as dynamic; so pools that differ in the fee alone go by the same
/// key on chain, and no others do.
pub proof fn keys_on_chain_have_no_fee(a: PoolKey, b: PoolKey)
    ensures
        private_key_of(a).fee == 0x80_0000,
        private_key_of(a) == private_key_of(b) <==> a.currency0 == b.currency0 && a.currency1
            == b.currency1 && a.tick_spacing == b.tick_spacing && a.hooks == b.hooks,
        private_key_of(a).currency0 == a.currency0,
        private_key_of(a).currency1 == a.currency1,
        private_key_of(a).tick_spacing == a.tick_spacing,
        private_key_of(a).hooks == a.hooks,
{
}

impl PoolKey {
    /// The ABI encoding of the key.
    pub fn abi_encode(&self) -> (r: Vec<u8>)
        ensures
            r@ == key_encoding(*self),
    {
        let mut out: Vec<u8> = Vec::new();
        push_word(&mut out, word_from_address(self.currency0));
        push_word(&mut out, word_from_address(self.currency1));
        push_word(&mut out, word_from_u32(self.fee));
        push_word(&mut out, word_from_i32(self.tick_spacing));
        push_word(&mut out, word_from_address(self.hooks));
        assert(out@ =~= key_encoding(*self));
        out
    }

    /// The key with a dynamic fee.
    pub fn with_dynamic_fee(&self) -> (r: PoolKey)
        ensures
            r == private_key_of(*self),
    {
        PoolKey {
            currency0: self.currency0,
            currency1: self.currency1,
            fee: DYNAMIC_FEE,
            tick_spacing: self.tick_spacing,
            hooks: self.hooks,
        }
    }
}

impl From<PoolKey> for B256 {
    fn from(value: PoolKey) -> (r: B256) {
        B256::from_bytes(&keccak256(&value.abi_encode()))
    }
}

impl vstd::std_specs::convert::FromSpecImpl<PoolKey> for B256 {
    open spec fn obeys_from_spec() -> bool {
        true
    }

    open spec fn from_spec(value: PoolKey) -> B256 {
        pool_id_of(value)
    }
}

} // verus!
