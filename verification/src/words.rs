//! Fixed-width values: 256-bit words, signed 256-bit integers, 160-bit
//! prices and 20-byte addresses.
//!
//! A 256-bit value is kept as four 64-bit limbs, least significant first, and
//! its view is the number that the limbs spell out.
use vstd::prelude::*;

verus! {

/// The number of values that 256 bits can hold.
pub open spec fn modulus_256() -> int {
    0x1_0000_0000_0000_0000_0000_0000_0000_0000_0000_0000_0000_0000_0000_0000_0000_0000int
}

/// Half of [`modulus_256`]: the first value that a signed word cannot hold.
pub open spec fn half_256() -> int {
    0x8000_0000_0000_0000_0000_0000_0000_0000_0000_0000_0000_0000_0000_0000_0000_0000int
}

/// An unsigned 256-bit integer.
#[derive(Clone, Copy, Debug, PartialEq, Eq, Structural, Hash)]
pub struct U256 {
    pub l0: u64,
    pub l1: u64,
    pub l2: u64,
    pub l3: u64,
}

impl View for U256 {
    type V = nat;

    open spec fn view(&self) -> nat {
        (self.l0 + self.l1 * 0x1_0000_0000_0000_0000int
            + self.l2 * 0x1_0000_0000_0000_0000_0000_0000_0000_0000int
            + self.l3 * 0x1_0000_0000_0000_0000_0000_0000_0000_0000_0000_0000_0000_0000int) as nat
    }
}

/// A number has one lowest digit and one rest.
proof fn low_digit_unique(x: u64, rest: int, y: u64, other: int)
    requires
        x + 0x1_0000_0000_0000_0000int * rest == y + 0x1_0000_0000_0000_0000int * other,
    ensures
        x == y,
        rest == other,
{
}

/// Two words that stand for the same number are the same word.
pub proof fn u256_view_injective(a: U256, b: U256)
    requires
        a@ == b@,
    ensures
        a == b,
{
    let base = 0x1_0000_0000_0000_0000int;
    let (a2, b2) = (a.l2 + base * a.l3, b.l2 + base * b.l3);
    let (a1, b1) = (a.l1 + base * a2, b.l1 + base * b2);
    low_digit_unique(a.l0, a1, b.l0, b1);
    low_digit_unique(a.l1, a2, b.l1, b2);
    low_digit_unique(a.l2, a.l3 as int, b.l2, b.l3 as int);
}

/// Every word is below `2^256`.
pub proof fn u256_view_bound(a: U256)
    ensures
        a@ < modulus_256(),
{
}

/// The number that four limbs spell out, least significant first.
pub open spec fn limbs_value(limbs: Seq<u64>) -> nat {
    (limbs[0] + limbs[1] * 0x1_0000_0000_0000_0000int
        + limbs[2] * 0x1_0000_0000_0000_0000_0000_0000_0000_0000int
        + limbs[3] * 0x1_0000_0000_0000_0000_0000_0000_0000_0000_0000_0000_0000_0000int) as nat
}

impl U256 {
    /// The limbs, least significant first.
    pub fn limbs(&self) -> (r: [u64; 4])
        ensures
            limbs_value(r@) == self@,
            r@ == seq![self.l0, self.l1, self.l2, self.l3],
    {
        [self.l0, self.l1, self.l2, self.l3]
    }

    /// The word with the given limbs, least significant first.
    pub fn from_limbs(limbs: [u64; 4]) -> (r: U256)
        ensures
            r@ == limbs_value(limbs@),
            r == (U256 { l0: limbs@[0], l1: limbs@[1], l2: limbs@[2], l3: limbs@[3] }),
    {
        U256 { l0: limbs[0], l1: limbs[1], l2: limbs[2], l3: limbs[3] }
    }

    /// The word that holds zero.
    pub fn zero() -> (r: U256)
        ensures
            r@ == 0,
    {
        U256 { l0: 0, l1: 0, l2: 0, l3: 0 }
    }

    /// Widens a 128-bit value.
    pub fn from_u128(x: u128) -> (r: U256)
        ensures
            r@ == x,
    {
        U256 {
            l0: (x % 0x1_0000_0000_0000_0000u128) as u64,
            l1: (x / 0x1_0000_0000_0000_0000u128) as u64,
            l2: 0,
            l3: 0,
        }
    }

    /// The value as a 128-bit integer, if it fits.
    pub fn to_u128(&self) -> (r: Option<u128>)
        ensures
            self@ <= u128::MAX ==> r == Some(self@ as u128),
            self@ > u128::MAX ==> r is None,
    {
        if self.l2 == 0 && self.l3 == 0 {
            Some(self.l1 as u128 * 0x1_0000_0000_0000_0000u128 + self.l0 as u128)
        } else {
            None
        }
    }

    /// The value as a 128-bit integer, or the largest one if it does not fit.
    pub fn saturating_to_u128(&self) -> (r: u128)
        ensures
            r == if self@ <= u128::MAX { self@ as int } else { u128::MAX as int },
    {
        match self.to_u128() {
            Some(x) => x,
            None => u128::MAX,
        }
    }

    /// Whether `self` is the smaller number.
    pub fn lt(&self, other: &U256) -> (r: bool)
        ensures
            r == (self@ < other@),
    {
        if self.l3 != other.l3 {
            self.l3 < other.l3
        } else if self.l2 != other.l2 {
            self.l2 < other.l2
        } else if self.l1 != other.l1 {
            self.l1 < other.l1
        } else {
            self.l0 < other.l0
        }
    }

    /// Whether both words hold the same number.
    pub fn same(&self, other: &U256) -> (r: bool)
        ensures
            r == (self@ == other@),
            r == (*self == *other),
    {
        proof {
            if self@ == other@ {
                u256_view_injective(*self, *other);
            }
        }
        *self == *other
    }
}

/// A signed 256-bit integer in two's complement.
#[derive(Clone, Copy, Debug, PartialEq, Eq, Structural, Hash)]
pub struct I256 {
    pub raw: U256,
}

impl View for I256 {
    type V = int;

    open spec fn view(&self) -> int {
        if self.raw@ < half_256() {
            self.raw@ as int
        } else {
            self.raw@ - modulus_256()
        }
    }
}

/// Two signed words that stand for the same number are the same word.
pub proof fn i256_view_injective(a: I256, b: I256)
    requires
        a@ == b@,
    ensures
        a == b,
{
    u256_view_bound(a.raw);
    u256_view_bound(b.raw);
    u256_view_injective(a.raw, b.raw);
}

/// The numbers that a signed word can hold.
pub proof fn i256_view_bound(a: I256)
    ensures
        -half_256() <= a@ < half_256(),
{
    u256_view_bound(a.raw);
}

/// The word that holds a number below `2^256`.
pub open spec fn word_of(n: nat) -> U256 {
    let base = 0x1_0000_0000_0000_0000nat;
    U256 {
        l0: (n % base) as u64,
        l1: (n / base % base) as u64,
        l2: (n / base / base % base) as u64,
        l3: (n / base / base / base % base) as u64,
    }
}

/// [`word_of`] a number below `2^256` holds that number.
pub proof fn word_of_holds(n: nat)
    requires
        n < modulus_256(),
    ensures
        word_of(n)@ == n,
{
    let base = 0x1_0000_0000_0000_0000nat;
    let n1 = n / base;
    let n2 = n1 / base;
    let n3 = n2 / base;
    assert(n == n1 * base + n % base);
    assert(n1 == n2 * base + n1 % base);
    assert(n2 == n3 * base + n2 % base);
    assert(n3 < base);
}

/// Every number but the smallest has a negation.
pub proof fn i256_neg_exists(a: I256)
    requires
        a@ != -half_256(),
    ensures
        exists|r: I256| #[trigger] r@ == -a@,
{
    i256_view_bound(a);
    let n: nat = if a@ <= 0 {
        (-a@) as nat
    } else {
        (modulus_256() - a@) as nat
    };
    word_of_holds(n);
    let r = I256 { raw: word_of(n) };
    assert(r@ == -a@);
}

impl I256 {
    /// The signed word that holds zero.
    pub fn zero() -> (r: I256)
        ensures
            r@ == 0,
    {
        I256 { raw: U256::zero() }
    }

    /// The largest signed word.
    pub fn max() -> (r: I256)
        ensures
            r@ == half_256() - 1,
    {
        I256 {
            raw: U256 {
                l0: u64::MAX,
                l1: u64::MAX,
                l2: u64::MAX,
                l3: 0x7fff_ffff_ffff_ffff,
            },
        }
    }

    /// Reads the bits of an unsigned word as a signed number.
    pub fn from_raw(raw: U256) -> (r: I256)
        ensures
            r.raw == raw,
    {
        I256 { raw }
    }

    /// Whether the number is above zero.
    pub fn is_positive(&self) -> (r: bool)
        ensures
            r == (self@ > 0),
    {
        self.raw.l3 < 0x8000_0000_0000_0000 && !(self.raw.l0 == 0 && self.raw.l1 == 0
            && self.raw.l2 == 0 && self.raw.l3 == 0)
    }

    /// Whether the number is below zero.
    pub fn is_negative(&self) -> (r: bool)
        ensures
            r == (self@ < 0),
    {
        self.raw.l3 >= 0x8000_0000_0000_0000
    }

    /// Whether the number is zero.
    pub fn is_zero(&self) -> (r: bool)
        ensures
            r == (self@ == 0),
    {
        self.raw.l0 == 0 && self.raw.l1 == 0 && self.raw.l2 == 0 && self.raw.l3 == 0
    }

    /// Whether `self` is the smaller number.
    pub fn lt(&self, other: &I256) -> (r: bool)
        ensures
            r == (self@ < other@),
    {
        let neg: bool = self.is_negative();
        let other_neg: bool = other.is_negative();
        if neg != other_neg {
            neg
        } else {
            self.raw.lt(&other.raw)
        }
    }

    /// The number as a 128-bit integer, if it fits.
    pub fn to_i128(&self) -> (r: Option<i128>)
        ensures
            i128::MIN <= self@ <= i128::MAX ==> r == Some(self@ as i128),
            self@ < i128::MIN || self@ > i128::MAX ==> r is None,
    {
        if self.raw.l3 == 0 && self.raw.l2 == 0 && self.raw.l1 < 0x8000_0000_0000_0000 {
            let low: u128 = self.raw.l1 as u128 * 0x1_0000_0000_0000_0000u128 + self.raw.l0 as u128;
            Some(low as i128)
        } else if self.raw.l3 == u64::MAX && self.raw.l2 == u64::MAX && self.raw.l1
            >= 0x8000_0000_0000_0000 {
            let low: u128 = self.raw.l1 as u128 * 0x1_0000_0000_0000_0000u128 + self.raw.l0 as u128;
            let gap: u128 = u128::MAX - low;
            Some(-(gap as i128) - 1)
        } else {
            None
        }
    }
}

/// Widens a signed 128-bit integer to 256 bits.
pub fn i128_to_i256(value: i128) -> (r: I256)
    ensures
        r@ == value,
{
    if value >= 0 {
        I256 { raw: U256::from_u128(value as u128) }
    } else {
        let gap: u128 = (-(value + 1)) as u128;
        let low: U256 = U256::from_u128(u128::MAX - gap);
        I256 { raw: U256 { l0: low.l0, l1: low.l1, l2: u64::MAX, l3: u64::MAX } }
    }
}

/// A 20-byte account address, read as a big-endian number.
#[derive(Clone, Copy, Debug, PartialEq, Eq, Structural, Hash)]
pub struct Address {
    pub hi: u32,
    pub lo: u128,
}

impl View for Address {
    type V = nat;

    open spec fn view(&self) -> nat {
        (self.lo + self.hi * 0x1_0000_0000_0000_0000_0000_0000_0000_0000int) as nat
    }
}

impl Address {
    /// The address of all zero bytes.
    pub fn zero() -> (r: Address)
        ensures
            r@ == 0,
    {
        Address { hi: 0, lo: 0 }
    }

    /// Whether `self` comes first in byte order.
    pub fn lt(&self, other: &Address) -> (r: bool)
        ensures
            r == (self@ < other@),
    {
        if self.hi != other.hi {
            self.hi < other.hi
        } else {
            self.lo < other.lo
        }
    }
}

/// Two addresses that stand for the same number are the same address.
pub proof fn address_view_injective(a: Address, b: Address)
    requires
        a@ == b@,
    ensures
        a == b,
{
}

/// An unsigned 160-bit integer.
#[derive(Clone, Copy, Debug, PartialEq, Eq, Structural, Hash)]
pub struct U160 {
    pub hi: u32,
    pub lo: u128,
}

impl View for U160 {
    type V = nat;

    open spec fn view(&self) -> nat {
        (self.lo + self.hi * 0x1_0000_0000_0000_0000_0000_0000_0000_0000int) as nat
    }
}

impl U160 {
    /// Widens the value to a word.
    pub fn to_u256(&self) -> (r: U256)
        ensures
            r@ == self@,
    {
        U256 {
            l0: (self.lo % 0x1_0000_0000_0000_0000u128) as u64,
            l1: (self.lo / 0x1_0000_0000_0000_0000u128) as u64,
            l2: self.hi as u64,
            l3: 0,
        }
    }
}

/// A 32-byte identifier or hash.
#[derive(Clone, Copy, Debug, PartialEq, Eq, Structural, Hash)]
pub struct B256 {
    pub word: U256,
}

/// Pool identifier type
pub type PoolId = B256;

} // verus!
