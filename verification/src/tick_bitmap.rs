//! The bitmap of initialized ticks: one bit for each multiple of the tick
//! spacing, 256 to a word.
use std::collections::HashMap;

use vstd::prelude::*;

use crate::arith::{MAX_TICK, MIN_TICK};
use crate::words::U256;

verus! {

broadcast use vstd::std_specs::hash::group_hash_axioms;

/// The `k`-th limb of a word.
pub open spec fn limb(word: U256, k: int) -> u64 {
    if k == 0 {
        word.l0
    } else if k == 1 {
        word.l1
    } else if k == 2 {
        word.l2
    } else {
        word.l3
    }
}

/// Whether bit `bit` of a word is set.
pub open spec fn word_bit(word: U256, bit: int) -> bool {
    (limb(word, bit / 64) >> ((bit % 64) as u64)) & 1 == 1
}

/// The word of the bitmap that holds the bit of a compressed tick.
pub open spec fn word_position(compressed: int) -> i16 {
    (compressed / 256) as i16
}

/// Whether the bit of a compressed tick is set.
pub open spec fn tick_bit(bitmap: Map<i16, U256>, compressed: int) -> bool {
    &&& bitmap.contains_key(word_position(compressed))
    &&& word_bit(bitmap[word_position(compressed)], compressed % 256)
}

/// Going down from `at` to the start of its word: the first compressed tick
/// whose bit is set, or the start of the word with `false`.
pub open spec fn first_set_down(bitmap: Map<i16, U256>, at: int) -> (int, bool)
    decreases at % 256,
{
    if tick_bit(bitmap, at) {
        (at, true)
    } else if at % 256 == 0 {
        (at, false)
    } else {
        first_set_down(bitmap, at - 1)
    }
}

/// Going up from `at` to the end of its word: the first compressed tick whose
/// bit is set, or the end of the word with `false`.
pub open spec fn first_set_up(bitmap: Map<i16, U256>, at: int) -> (int, bool)
    decreases 255 - at % 256,
{
    if tick_bit(bitmap, at) {
        (at, true)
    } else if at % 256 == 255 {
        (at, false)
    } else {
        first_set_up(bitmap, at + 1)
    }
}

/// The tick nearest to `n` that has a price.
pub open spec fn clamp_tick(n: int) -> i32 {
    if n < MIN_TICK {
        MIN_TICK
    } else if n > MAX_TICK {
        MAX_TICK
    } else {
        n as i32
    }
}

/// The tick that a swap from `tick` runs to next, and whether it is
/// initialized: the nearest initialized tick within the same word of the
/// bitmap, at or below `tick` for `lte` and above it otherwise, or else the
/// edge of that word; held within the bounds of the price grid.
pub open spec fn next_tick_within_word(
    bitmap: Map<i16, U256>,
    tick: int,
    spacing: int,
    lte: bool,
) -> (i32, bool) {
    let compressed = tick / spacing;
    let found = if lte {
        first_set_down(bitmap, compressed)
    } else {
        first_set_up(bitmap, compressed + 1)
    };
    (clamp_tick(found.0 * spacing), found.1)
}

/// What the search downwards finds: a compressed tick of the same word at or
/// below the start, with no set bit between; the start of the word when no bit
/// is set.
pub proof fn first_set_down_is_nearest(bitmap: Map<i16, U256>, at: int)
    ensures
        ({
            let found = first_set_down(bitmap, at);
            &&& at - at % 256 <= found.0 <= at
            &&& found.1 == tick_bit(bitmap, found.0)
            &&& !found.1 ==> found.0 == at - at % 256
            &&& forall|c: int| found.0 < c <= at ==> !#[trigger] tick_bit(bitmap, c)
        }),
    decreases at % 256,
{
    if !tick_bit(bitmap, at) && at % 256 != 0 {
        assert((at - 1) % 256 == at % 256 - 1);
        first_set_down_is_nearest(bitmap, at - 1);
    }
}

/// What the search upwards finds: a compressed tick of the same word at or
/// above the start, with no set bit between; the end of the word when no bit
/// is set.
pub proof fn first_set_up_is_nearest(bitmap: Map<i16, U256>, at: int)
    ensures
        ({
            let found = first_set_up(bitmap, at);
            &&& at <= found.0 <= at - at % 256 + 255
            &&& found.1 == tick_bit(bitmap, found.0)
            &&& !found.1 ==> found.0 == at - at % 256 + 255
            &&& forall|c: int| at <= c < found.0 ==> !#[trigger] tick_bit(bitmap, c)
        }),
    decreases 255 - at % 256,
{
    if !tick_bit(bitmap, at) && at % 256 != 255 {
        assert((at + 1) % 256 == at % 256 + 1);
        first_set_up_is_nearest(bitmap, at + 1);
    }
}

/// The word with bit `bit` set as well.
pub open spec fn word_with_bit(word: U256, bit: int) -> U256 {
    let mask = 1u64 << ((bit % 64) as u64);
    if bit < 64 {
        U256 { l0: word.l0 | mask, l1: word.l1, l2: word.l2, l3: word.l3 }
    } else if bit < 128 {
        U256 { l0: word.l0, l1: word.l1 | mask, l2: word.l2, l3: word.l3 }
    } else if bit < 192 {
        U256 { l0: word.l0, l1: word.l1, l2: word.l2 | mask, l3: word.l3 }
    } else {
        U256 { l0: word.l0, l1: word.l1, l2: word.l2, l3: word.l3 | mask }
    }
}

/// The bit that [`word_with_bit`] adds is set in its result, and every other
/// bit is as before.
pub proof fn word_with_bit_sets_that_bit(word: U256, bit: int)
    requires
        0 <= bit < 256,
    ensures
        forall|i: int|
            0 <= i < 256 ==> #[trigger] word_bit(word_with_bit(word, bit), i) == (i == bit
                || word_bit(word, i)),
{
    let r = word_with_bit(word, bit);
    let low: u64 = (bit % 64) as u64;
    assert forall|i: int| 0 <= i < 256 implies #[trigger] word_bit(r, i) == (i == bit || word_bit(
        word,
        i,
    )) by {
        let k: u64 = (i % 64) as u64;
        assert(i == 64 * (i / 64) + i % 64);
        assert(bit == 64 * (bit / 64) + bit % 64);
        if i / 64 == bit / 64 {
            let x: u64 = limb(word, i / 64);
            let y: u64 = limb(r, i / 64);
            assert(y == x | (1u64 << low));
            assert((y >> k) & 1 == 1 <==> k == low || (x >> k) & 1 == 1) by (bit_vector)
                requires
                    k < 64,
                    low < 64,
                    y == x | (1u64 << low),
            ;
        }
    }
}

/// The bitmap with the bit of a compressed tick set as well.
pub open spec fn with_tick_bit(bitmap: Map<i16, U256>, compressed: int) -> Map<i16, U256> {
    let pos = word_position(compressed);
    let word = if bitmap.contains_key(pos) {
        bitmap[pos]
    } else {
        U256 { l0: 0, l1: 0, l2: 0, l3: 0 }
    };
    bitmap.insert(pos, word_with_bit(word, compressed % 256))
}

/// Setting the bit of a compressed tick sets that bit and leaves every other
/// bit of the bitmap as it was. The compressed ticks are those whose word has
/// a position of its own.
pub proof fn with_tick_bit_sets_that_bit(bitmap: Map<i16, U256>, compressed: int, other: int)
    requires
        -0x80_0000 <= compressed < 0x80_0000,
        -0x80_0000 <= other < 0x80_0000,
    ensures
        tick_bit(with_tick_bit(bitmap, compressed), other) == (other == compressed || tick_bit(
            bitmap,
            other,
        )),
{
    let pos = word_position(compressed);
    let word = if bitmap.contains_key(pos) {
        bitmap[pos]
    } else {
        U256 { l0: 0, l1: 0, l2: 0, l3: 0 }
    };
    word_with_bit_sets_that_bit(word, compressed % 256);
    assert(other == 256 * (other / 256) + other % 256);
    assert(compressed == 256 * (compressed / 256) + compressed % 256);
    assert(word_bit(word_with_bit(word, compressed % 256), other % 256) == (other % 256
        == compressed % 256 || word_bit(word, other % 256)));
    if !bitmap.contains_key(pos) {
        let k: u64 = ((other % 256) % 64) as u64;
        assert((0u64 >> k) & 1 == 0) by (bit_vector);
    }
}

/// The word with one more bit set.
pub fn set_word_bit(word: U256, bit: u8) -> (r: U256)
    ensures
        r == word_with_bit(word, bit as int),
{
    let mask: u64 = 1u64 << ((bit % 64) as u64);
    if bit < 64 {
        U256 { l0: word.l0 | mask, l1: word.l1, l2: word.l2, l3: word.l3 }
    } else if bit < 128 {
        U256 { l0: word.l0, l1: word.l1 | mask, l2: word.l2, l3: word.l3 }
    } else if bit < 192 {
        U256 { l0: word.l0, l1: word.l1, l2: word.l2 | mask, l3: word.l3 }
    } else {
        U256 { l0: word.l0, l1: word.l1, l2: word.l2, l3: word.l3 | mask }
    }
}

/// Whether a bit of a word is set.
pub fn test_word_bit(word: U256, bit: u8) -> (r: bool)
    ensures
        r == word_bit(word, bit as int),
{
    let low: u64 = (bit % 64) as u64;
    let limb: u64 = if bit < 64 {
        word.l0
    } else if bit < 128 {
        word.l1
    } else if bit < 192 {
        word.l2
    } else {
        word.l3
    };
    (limb >> low) & 1 == 1
}

/// Two limbs with the same low `n` bits are the same above the others.
proof fn low_bits_are_the_same(x: u64, y: u64, n: u64)
    requires
        1 <= n <= 64,
        forall|k: u64| k < 64 ==> #[trigger] (x >> k) & 1 == (y >> k) & 1,
    ensures
        x << ((64 - n) as u64) == y << ((64 - n) as u64),
    decreases n,
{
    let k: u64 = (n - 1) as u64;
    let more: u64 = (64 - n) as u64;
    assert((x >> k) & 1 == (y >> k) & 1);
    if n == 1 {
        assert(x << 63 == y << 63) by (bit_vector)
            requires
                (x >> 0) & 1 == (y >> 0) & 1,
        ;
    } else {
        low_bits_are_the_same(x, y, k);
        let fewer: u64 = (more + 1) as u64;
        assert(x << more == y << more) by (bit_vector)
            requires
                more < 63,
                fewer == more + 1,
                k == 63 - more,
                x << fewer == y << fewer,
                (x >> k) & 1 == (y >> k) & 1,
        ;
    }
}

/// Two limbs with the same bits are the same.
proof fn limb_is_its_bits(x: u64, y: u64)
    requires
        forall|k: u64| k < 64 ==> #[trigger] (x >> k) & 1 == (y >> k) & 1,
    ensures
        x == y,
{
    low_bits_are_the_same(x, y, 64);
    assert(x == y) by (bit_vector)
        requires
            x << 0 == y << 0,
    ;
}

/// Two words with the same bits are the same.
pub proof fn word_is_its_bits(a: U256, b: U256)
    requires
        forall|bit: int| 0 <= bit < 256 ==> #[trigger] word_bit(a, bit) == word_bit(b, bit),
    ensures
        a == b,
{
    assert forall|n: int| 0 <= n < 4 implies #[trigger] limb(a, n) == limb(b, n) by {
        let x = limb(a, n);
        let y = limb(b, n);
        assert forall|k: u64| k < 64 implies #[trigger] (x >> k) & 1 == (y >> k) & 1 by {
            let bit = 64 * n + k;
            assert(bit / 64 == n && bit % 64 == k);
            assert(word_bit(a, bit) == word_bit(b, bit));
            assert((x >> k) & 1 == 0 || (x >> k) & 1 == 1) by (bit_vector);
            assert((y >> k) & 1 == 0 || (y >> k) & 1 == 1) by (bit_vector);
        }
        limb_is_its_bits(x, y);
    }
    assert(limb(a, 0) == limb(b, 0));
    assert(limb(a, 1) == limb(b, 1));
    assert(limb(a, 2) == limb(b, 2));
    assert(limb(a, 3) == limb(b, 3));
}

/// The zero word has no bit set.
pub proof fn zero_word_has_no_bit(bit: int)
    ensures
        !word_bit(U256 { l0: 0, l1: 0, l2: 0, l3: 0 }, bit),
{
    let k: u64 = (bit % 64) as u64;
    assert((0u64 >> k) & 1 == 0) by (bit_vector);
}

/// The word with the bits of two words.
pub open spec fn word_union(a: U256, b: U256) -> U256 {
    U256 { l0: a.l0 | b.l0, l1: a.l1 | b.l1, l2: a.l2 | b.l2, l3: a.l3 | b.l3 }
}

/// A bit is set in the union of two words if it is set in one of them.
pub proof fn word_union_bits(a: U256, b: U256, bit: int)
    requires
        0 <= bit < 256,
    ensures
        word_bit(word_union(a, b), bit) == (word_bit(a, bit) || word_bit(b, bit)),
{
    let k: u64 = (bit % 64) as u64;
    let x: u64 = limb(a, bit / 64);
    let y: u64 = limb(b, bit / 64);
    let z: u64 = limb(word_union(a, b), bit / 64);
    assert((z >> k) & 1 == 1 <==> (x >> k) & 1 == 1 || (y >> k) & 1 == 1) by (bit_vector)
        requires
            z == x | y,
            k < 64,
    ;
}

/// Adding the bits of a word a second time changes nothing.
pub proof fn word_union_idempotent(a: U256, b: U256)
    ensures
        word_union(word_union(a, b), b) == word_union(a, b),
{
    assert forall|x: u64, y: u64| #[trigger] ((x | y) | y) == x | y by {
        assert((x | y) | y == x | y) by (bit_vector);
    }
}

/// The bitmap with the bits of two bitmaps.
pub open spec fn bitmap_union(a: Map<i16, U256>, b: Map<i16, U256>) -> Map<i16, U256> {
    Map::new(
        |pos: i16| a.contains_key(pos) || b.contains_key(pos),
        |pos: i16|
            if a.contains_key(pos) && b.contains_key(pos) {
                word_union(a[pos], b[pos])
            } else if b.contains_key(pos) {
                b[pos]
            } else {
                a[pos]
            },
    )
}

/// A compressed tick has its bit set in the union of two bitmaps if it has it
/// set in one of them.
pub proof fn bitmap_union_bits(a: Map<i16, U256>, b: Map<i16, U256>, compressed: int)
    ensures
        tick_bit(bitmap_union(a, b), compressed) == (tick_bit(a, compressed) || tick_bit(
            b,
            compressed,
        )),
{
    let pos = word_position(compressed);
    word_union_bits(a[pos], b[pos], compressed % 256);
}

/// The bits of two words.
pub fn merge_words(a: U256, b: U256) -> (r: U256)
    ensures
        r == word_union(a, b),
{
    U256 { l0: a.l0 | b.l0, l1: a.l1 | b.l1, l2: a.l2 | b.l2, l3: a.l3 | b.l3 }
}

/// The quotient rounded down.
pub fn floor_div(a: i64, d: i64) -> (r: i64)
    requires
        d > 0,
    ensures
        r == a as int / d as int,
{
    let q: i64 = a / d;
    let m: i64 = a % d;
    proof {
        let (x, y): (int, int) = (a as int, d as int);
        if x < 0 {
            let n = -x;
            assert(q == -(n / y) && m == -(n % y));
            vstd::arithmetic::div_mod::lemma_fundamental_div_mod(n, y);
            vstd::arithmetic::div_mod::lemma_mod_bound(n, y);
            assert(x == y * q + m && x == y * (q - 1) + (y + m) && q >= -n && (y >= 2 ==> 2 * q
                >= -n)) by (nonlinear_arith)
                requires
                    n == y * (n / y) + n % y,
                    0 <= n % y < y,
                    q == -(n / y),
                    m == -(n % y),
                    n == -x,
                    n > 0,
                    y >= 1,
            ;
            if m < 0 {
                vstd::arithmetic::div_mod::lemma_fundamental_div_mod_converse(x, y, q - 1, y + m);
            } else {
                vstd::arithmetic::div_mod::lemma_fundamental_div_mod_converse(x, y, q as int, 0);
            }
        }
    }
    if m < 0 {
        q - 1
    } else {
        q
    }
}

/// Whether the bit of a compressed tick is set.
fn test_tick_bit(bitmap: &HashMap<i16, U256>, compressed: i64) -> (r: bool)
    requires
        -0x1_0000_0000 <= compressed <= 0x1_0000_0000,
    ensures
        r == tick_bit(bitmap@, compressed as int),
{
    let word: i64 = floor_div(compressed, 256);
    let bit: i64 = compressed - 256 * word;
    let word_pos: i16 = word as i16;
    match bitmap.get(&word_pos) {
        Some(word) => test_word_bit(*word, bit as u8),
        None => false,
    }
}

/// The quotient rounded towards zero.
pub open spec fn trunc_div(a: int, d: int) -> int {
    let q = (if a < 0 {
        -a
    } else {
        a
    }) / (if d < 0 {
        -d
    } else {
        d
    });
    if (a < 0) == (d < 0) {
        q
    } else {
        -q
    }
}

/// Sets the bit of a tick, unless it is set already.
pub fn flip_tick_if_not_init(tick_bitmap: &mut HashMap<i16, U256>, tick: i32, tick_spacing: i32)
    requires
        tick_spacing != 0,
        !(tick == i32::MIN && tick_spacing == -1),
    ensures
        final(tick_bitmap)@ == with_tick_bit(
            old(tick_bitmap)@,
            trunc_div(tick as int, tick_spacing as int),
        ),
{
    let above: u64 = if tick < 0 {
        (-(tick as i64)) as u64
    } else {
        tick as u64
    };
    let below: u64 = if tick_spacing < 0 {
        (-(tick_spacing as i64)) as u64
    } else {
        tick_spacing as u64
    };
    let q: u64 = above / below;
    proof {
        vstd::arithmetic::div_mod::lemma_div_is_ordered_by_denominator(
            above as int,
            1,
            below as int,
        );
    }
    let compressed: i64 = if (tick < 0) == (tick_spacing < 0) {
        q as i64
    } else {
        -(q as i64)
    };
    let word: i64 = floor_div(compressed, 256);
    let bit: u8 = (compressed - 256 * word) as u8;
    let word_pos: i16 = word as i16;
    let current: U256 = match tick_bitmap.get(&word_pos) {
        Some(w) => *w,
        None => U256 { l0: 0, l1: 0, l2: 0, l3: 0 },
    };
    tick_bitmap.insert(word_pos, set_word_bit(current, bit));
}

/// Searches a word of the bitmap downwards.
fn search_down(bitmap: &HashMap<i16, U256>, start: i64) -> (r: (i64, bool))
    requires
        -0x8000_0001 <= start <= 0x8000_0001,
    ensures
        (r.0 as int, r.1) == first_set_down(bitmap@, start as int),
{
    let mut at: i64 = start;
    while !test_tick_bit(bitmap, at) && at - 256 * floor_div(at, 256) != 0
        invariant
            start - 256 <= at <= start,
            -0x8000_0001 <= start <= 0x8000_0001,
            start as int - start as int % 256 <= at,
            first_set_down(bitmap@, start as int) == first_set_down(bitmap@, at as int),
        decreases at - (start - 256),
    {
        at = at - 1;
    }
    let set: bool = test_tick_bit(bitmap, at);
    (at, set)
}

/// Searches a word of the bitmap upwards.
fn search_up(bitmap: &HashMap<i16, U256>, start: i64) -> (r: (i64, bool))
    requires
        -0x8000_0001 <= start <= 0x8000_0001,
    ensures
        (r.0 as int, r.1) == first_set_up(bitmap@, start as int),
{
    let mut at: i64 = start;
    while !test_tick_bit(bitmap, at) && at - 256 * floor_div(at, 256) != 255
        invariant
            start <= at <= start + 255,
            -0x8000_0001 <= start <= 0x8000_0001,
            at <= start as int - start as int % 256 + 255,
            first_set_up(bitmap@, start as int) == first_set_up(bitmap@, at as int),
        decreases start + 256 - at,
    {
        at = at + 1;
    }
    let set: bool = test_tick_bit(bitmap, at);
    (at, set)
}

/// The tick that a swap from `tick` runs to next within one word of the
/// bitmap, and whether it is initialized.
pub fn next_initialized_tick_within_one_word(
    bitmap: &HashMap<i16, U256>,
    tick: i32,
    tick_spacing: i32,
    lte: bool,
) -> (r: (i32, bool))
    requires
        tick_spacing > 0,
    ensures
        r == next_tick_within_word(bitmap@, tick as int, tick_spacing as int, lte),
{
    let spacing: i64 = tick_spacing as i64;
    let compressed: i64 = floor_div(tick as i64, spacing);
    proof {
        vstd::arithmetic::div_mod::lemma_fundamental_div_mod(tick as int, spacing as int);
        assert(-0x8000_0000 <= compressed <= 0x7fff_ffff) by (nonlinear_arith)
            requires
                tick == spacing * compressed + tick as int % spacing as int,
                0 <= (tick as int % spacing as int),
                (tick as int % spacing as int) < spacing,
                spacing >= 1,
                -0x8000_0000 <= tick <= 0x7fff_ffff,
        ;
    }
    let found: (i64, bool) = if lte {
        search_down(bitmap, compressed)
    } else {
        search_up(bitmap, compressed + 1)
    };
    proof {
        first_set_down_is_nearest(bitmap@, compressed as int);
        first_set_up_is_nearest(bitmap@, compressed + 1);
        assert(-0x8000_0000 * 0x8000_0200 <= found.0 * spacing <= 0x8000_0000 * 0x8000_0200)
            by (nonlinear_arith)
            requires
                -0x8000_0200 <= found.0 <= 0x8000_0200,
                1 <= spacing <= 0x8000_0000,
        ;
    }
    let next: i64 = found.0 * spacing;
    let clamped: i32 = if next < MIN_TICK as i64 {
        MIN_TICK
    } else if next > MAX_TICK as i64 {
        MAX_TICK
    } else {
        next as i32
    };
    (clamped, found.1)
}

/// The quotient rounded towards zero: what is left over is smaller than the divisor, and
/// no step further from zero than the number divided.
pub proof fn quotient_is_rounded_to_zero(a: int, d: int)
    requires
        d > 0,
    ensures
        a >= 0 ==> trunc_div(a, d) * d <= a < (trunc_div(a, d) + 1) * d,
        a <= 0 ==> (trunc_div(a, d) - 1) * d < a <= trunc_div(a, d) * d,
        trunc_div(-a, d) == -trunc_div(a, d),
{
    let n = if a < 0 {
        -a
    } else {
        a
    };
    let q = n / d;
    vstd::arithmetic::div_mod::lemma_fundamental_div_mod(n, d);
    assert(q * d <= n < (q + 1) * d && (-q) * d >= -n && (-q - 1) * d < -n) by (nonlinear_arith)
        requires
            n == d * q + n % d,
            0 <= n % d < d,
    ;
    if a == 0 {
        assert(q == 0) by (nonlinear_arith)
            requires
                q * d <= 0 < (q + 1) * d,
                d > 0,
        ;
    }
}

/// The tick that a search gives, before the bounds of the price grid hold it, which goes
/// 887272 ticks either way: a multiple of the spacing in the same word of the bitmap, with
/// no marked one passed over. It is initialized exactly where it is marked, and where it
/// is not it is the edge of the word. A search upwards begins behind the tick that it
/// starts from, one downwards at it.
pub proof fn next_tick_is_nearest_or_edge(
    bitmap: Map<i16, U256>,
    tick: int,
    spacing: int,
    lte: bool,
) -> (q: int)
    requires
        spacing > 0,
    ensures
        ({
            let next = next_tick_within_word(bitmap, tick, spacing, lte);
            let start = if lte {
                tick / spacing
            } else {
                tick / spacing + 1
            };
            &&& -887272 <= q * spacing <= 887272 ==> next.0 == q * spacing
            &&& q * spacing < -887272 ==> next.0 == -887272
            &&& q * spacing > 887272 ==> next.0 == 887272
            &&& next.1 == tick_bit(bitmap, q)
            &&& q / 256 == start / 256
            &&& lte ==> q <= start && (forall|c: int| q < c <= start ==> !#[trigger] tick_bit(
                bitmap,
                c,
            )) && (!next.1 ==> q % 256 == 0)
            &&& !lte ==> start <= q && (forall|c: int| start <= c < q ==> !#[trigger] tick_bit(
                bitmap,
                c,
            )) && (!next.1 ==> q % 256 == 255)
        }),
{
    let compressed = tick / spacing;
    first_set_down_is_nearest(bitmap, compressed);
    first_set_up_is_nearest(bitmap, compressed + 1);
    if lte {
        first_set_down(bitmap, compressed).0
    } else {
        first_set_up(bitmap, compressed + 1).0
    }
}

/// The tick that a search upwards gives lies above the start of the search,
/// and one that a search downwards gives at or below it, wherever the bounds
/// of the price grid do not hold it back. Where they do, it is the bound.
pub proof fn next_tick_lies_in_direction(
    bitmap: Map<i16, U256>,
    tick: int,
    spacing: int,
    lte: bool,
)
    requires
        spacing > 0,
    ensures
        lte && tick >= MIN_TICK ==> next_tick_within_word(bitmap, tick, spacing, lte).0 <= tick,
        !lte && tick < MAX_TICK ==> next_tick_within_word(bitmap, tick, spacing, lte).0 > tick,
        lte && tick < MIN_TICK ==> next_tick_within_word(bitmap, tick, spacing, lte).0 == MIN_TICK,
        !lte && tick >= MAX_TICK ==> next_tick_within_word(bitmap, tick, spacing, lte).0
            == MAX_TICK,
        MIN_TICK <= next_tick_within_word(bitmap, tick, spacing, lte).0 <= MAX_TICK,
{
    let compressed = tick / spacing;
    first_set_down_is_nearest(bitmap, compressed);
    first_set_up_is_nearest(bitmap, compressed + 1);
    vstd::arithmetic::div_mod::lemma_fundamental_div_mod(tick, spacing);
    let down = first_set_down(bitmap, compressed).0;
    let up = first_set_up(bitmap, compressed + 1).0;
    assert(down * spacing <= tick && up * spacing > tick) by (nonlinear_arith)
        requires
            tick == spacing * compressed + tick % spacing,
            0 <= tick % spacing < spacing,
            spacing > 0,
            down <= compressed,
            up >= compressed + 1,
    ;
}

} // verus!
