//! Tick arithmetic of concentrated-liquidity pools: compressing a tick by the
//! pool's tick spacing, and locating the range of tick-bitmap words that can
//! hold an initialized tick.

use vstd::prelude::*;

verus! {

/// The smallest tick a pool can use.
pub const MIN_TICK: i32 = -887272;

/// The largest tick a pool can use.
pub const MAX_TICK: i32 = 887272;

/// Quotient of Rust's `/` on integers: rounded toward zero.
pub open spec fn trunc_div(a: int, b: int) -> int {
    if a >= 0 && b > 0 {
        a / b
    } else if a < 0 && b < 0 {
        (-a) / (-b)
    } else if a < 0 {
        -((-a) / b)
    } else {
        -(a / (-b))
    }
}

/// Remainder of Rust's `%` on integers: it has the sign of `a`, and its
/// magnitude is that of `a` modulo that of `b`.
pub open spec fn trunc_rem(a: int, b: int) -> int {
    let m = if b < 0 { -b } else { b };
    if a >= 0 {
        a % m
    } else {
        -((-a) % m)
    }
}

/// The compressed tick: the quotient of `tick` by `tick_spacing` rounded toward
/// zero, lowered by one when `tick` is negative and not a multiple of the spacing.
pub open spec fn compressed_tick(tick: int, tick_spacing: int) -> int {
    trunc_div(tick, tick_spacing) - (if tick < 0 && trunc_rem(tick, tick_spacing) != 0 {
        1int
    } else {
        0int
    })
}

/// Floor division by 256: the index of the bitmap word that holds a compressed tick.
pub open spec fn word_of(compressed: int) -> int {
    compressed / 256
}

/// The bitmap words that hold the ticks between `MIN_TICK` and `MAX_TICK`.
pub open spec fn word_positions(tick_spacing: int) -> (int, int) {
    (
        word_of(compressed_tick(MIN_TICK as int, tick_spacing)),
        word_of(compressed_tick(MAX_TICK as int, tick_spacing)),
    )
}

/// Compresses `tick` by `tick_spacing`.
pub fn compress_tick(tick: i32, tick_spacing: i32) -> (compressed: i32)
    requires
        tick_spacing != 0,
        !(tick == i32::MIN && tick_spacing == -1),
    ensures
        compressed == compressed_tick(tick as int, tick_spacing as int),
        tick_spacing > 0 ==> compressed == tick as int / tick_spacing as int,
{
    proof {
        lemma_trunc_div_bound(tick as int, tick_spacing as int);
    }
    // Both operations are defined here: the divisor is not zero and the
    // quotient cannot leave the range of `i32`.
    let (mut compressed, rem) = match (tick.checked_div(tick_spacing), tick.checked_rem(tick_spacing)) {
        (Some(q), Some(r)) => (q, r),
        _ => {
            assert(false);
            (0, 0)
        },
    };
    assert(compressed == trunc_div(tick as int, tick_spacing as int));
    proof {
        if tick == 0 {
            let m: int = if tick_spacing < 0 { -tick_spacing } else { tick_spacing as int };
            vstd::arithmetic::div_mod::lemma_small_mod(0, m as nat);
        }
    }
    assert(rem == trunc_rem(tick as int, tick_spacing as int));
    if tick < 0 && rem != 0 {
        compressed -= 1;
    }
    proof {
        if tick_spacing > 0 {
            lemma_compressed_is_floor(tick as int, tick_spacing as int);
        }
    }
    compressed
}

proof fn lemma_trunc_div_bound(a: int, b: int)
    requires
        b != 0,
    ensures
        -(if a < 0 { -a } else { a }) <= trunc_div(a, b) <= (if a < 0 { -a } else { a }),
        b > 1 || b < -1 ==> -(if a < 0 { -a } else { a }) / 2 <= trunc_div(a, b) <= (if a < 0 { -a } else { a }) / 2,
{
    if b >= 1 {
        if a >= 0 {
            assert(a / b <= a) by (nonlinear_arith) requires a >= 0, b >= 1;
        } else {
            assert((-a) / b <= -a) by (nonlinear_arith) requires -a > 0, b >= 1;
        }
    } else {
        if a >= 0 {
            assert(a / (-b) <= a) by (nonlinear_arith) requires a >= 0, -b >= 1;
        } else {
            assert((-a) / (-b) <= -a) by (nonlinear_arith) requires -a > 0, -b >= 1;
        }
    }
    if b > 1 {
        if a >= 0 {
            assert(a / b <= a / 2) by (nonlinear_arith) requires a >= 0, b > 1;
        } else {
            assert((-a) / b <= (-a) / 2) by (nonlinear_arith) requires -a > 0, b > 1;
        }
    } else if b < -1 {
        if a >= 0 {
            assert(a / (-b) <= a / 2) by (nonlinear_arith) requires a >= 0, -b > 1;
        } else {
            assert((-a) / (-b) <= (-a) / 2) by (nonlinear_arith) requires -a > 0, -b > 1;
        }
    }
}

/// For a positive spacing the compressed tick is the floor of `tick / tick_spacing`.
pub proof fn lemma_compressed_is_floor(tick: int, tick_spacing: int)
    requires
        tick_spacing > 0,
    ensures
        compressed_tick(tick, tick_spacing) == tick / tick_spacing,
{
    let s = tick_spacing;
    if tick < 0 {
        let n = -tick;
        let q = n / s;
        let r = n % s;
        assert(n == s * q + r && 0 <= r < s) by {
            vstd::arithmetic::div_mod::lemma_fundamental_div_mod(n, s);
        }
        assert(trunc_rem(tick, s) == -r);
        if r == 0 {
            assert(tick == s * (-q)) by (nonlinear_arith) requires tick == -n, n == s * q + r, r == 0;
            vstd::arithmetic::div_mod::lemma_div_multiples_vanish(-q, s);
        } else {
            assert(tick == s * (-q - 1) + (s - r)) by (nonlinear_arith)
                requires tick == -n, n == s * q + r;
            vstd::arithmetic::div_mod::lemma_div_basics(s);
            vstd::arithmetic::div_mod::lemma_fundamental_div_mod_converse(tick, s, -q - 1, s - r);
        }
    }
}

/// `x >> 8` on an `i32` is the floor of `x / 256`.
proof fn lemma_shift_right_8(x: i32)
    ensures
        (x >> 8u32) as int == x as int / 256,
{
    assert(((x >> 8u32) as int) * 256 <= x as int && (x as int) < ((x >> 8u32) as int) * 256 + 256)
        by (bit_vector);
    let k = (x >> 8u32) as int;
    vstd::arithmetic::div_mod::lemma_fundamental_div_mod_converse(x as int, 256, k, x - k * 256);
}

/// The first and the last bitmap word that can hold a tick of a pool with
/// this tick spacing.
pub fn get_word_positions(tick_spacing: i32) -> (positions: (i16, i16))
    requires
        tick_spacing != 0,
    ensures
        positions.0 as int == word_positions(tick_spacing as int).0,
        positions.1 as int == word_positions(tick_spacing as int).1,
{
    let compressed_lower = compress_tick(MIN_TICK, tick_spacing);
    let compressed_upper = compress_tick(MAX_TICK, tick_spacing);
    proof {
        lemma_trunc_div_bound(MIN_TICK as int, tick_spacing as int);
        lemma_trunc_div_bound(MAX_TICK as int, tick_spacing as int);
        lemma_shift_right_8(compressed_lower);
        lemma_shift_right_8(compressed_upper);
    }
    let lower = compressed_lower >> 8;
    let upper = compressed_upper >> 8;
    (lower as i16, upper as i16)
}

/// Compressing undoes the multiplication by the spacing: the tick
/// `index * tick_spacing` compresses to `index`, whatever the signs.
pub proof fn lemma_compress_of_multiple(index: int, tick_spacing: int)
    requires
        tick_spacing != 0,
    ensures
        compressed_tick(index * tick_spacing, tick_spacing) == index,
{
    let s = tick_spacing;
    let t = index * s;
    let m: int = if s < 0 { -s } else { s };
    let k: int = if t < 0 { -t } else { t };
    let j: int = if index < 0 { -index } else { index };
    assert(k == j * m) by (nonlinear_arith)
        requires t == index * s, k == (if t < 0 { -t } else { t }), j == (if index < 0 { -index } else { index }),
            m == (if s < 0 { -s } else { s });
    vstd::arithmetic::div_mod::lemma_div_multiples_vanish(j, m);
    vstd::arithmetic::div_mod::lemma_mod_multiples_basic(j, m);
    assert(j * m == m * j) by (nonlinear_arith);
    assert(k / m == j);
    assert(k % m == 0);
    if t >= 0 && s > 0 {
        assert(index >= 0) by (nonlinear_arith) requires t == index * s, t >= 0, s > 0;
    } else if t < 0 && s < 0 {
        assert(index > 0) by (nonlinear_arith) requires t == index * s, t < 0, s < 0;
    } else if t < 0 {
        assert(index < 0) by (nonlinear_arith) requires t == index * s, t < 0, s > 0;
    } else {
        assert(index <= 0) by (nonlinear_arith) requires t == index * s, t >= 0, s < 0;
    }
}

/// The bitmap position of a compressed tick within its word.
pub open spec fn bit_of(compressed: int) -> int {
    compressed % 256
}

/// A 256-bit word of a pool's tick bitmap, as its low and its high 128 bits:
/// bit `b` of the word is bit `b` of `low` for `b < 128`, and bit `b - 128`
/// of `high` otherwise.
#[derive(Clone, Copy, Debug, PartialEq, Eq, Structural)]
pub struct TickBitmap {
    pub low: u128,
    pub high: u128,
}

/// Bit `bit` of a tick bitmap word is set; the word has bits 0 to 255.
pub open spec fn bit_is_set(bitmap: TickBitmap, bit: int) -> bool {
    if 0 <= bit < 128 {
        bitmap.low & (1u128 << (bit as u128)) != 0
    } else if 128 <= bit < 256 {
        bitmap.high & (1u128 << ((bit - 128) as u128)) != 0
    } else {
        false
    }
}

/// The positions of the set bits among the first `n` bits, in increasing order.
pub open spec fn set_bits(bitmap: TickBitmap, n: nat) -> Seq<int>
    decreases n,
{
    if n == 0 {
        seq![]
    } else {
        let before = set_bits(bitmap, (n - 1) as nat);
        if bit_is_set(bitmap, n - 1) {
            before.push(n - 1)
        } else {
            before
        }
    }
}

/// The tick that bit `bit` of bitmap word `word` stands for.
pub open spec fn tick_at(word: int, bit: int, tick_spacing: int) -> int {
    (word * 256 + bit) * tick_spacing
}

/// The ticks that a bitmap word marks as initialized, in the order of their bits.
pub open spec fn word_ticks(word: int, bitmap: TickBitmap, tick_spacing: int) -> Seq<int> {
    set_bits(bitmap, 256).map_values(|bit: int| tick_at(word, bit, tick_spacing))
}

/// A value that an `int24` can hold.
pub open spec fn fits_int24(v: int) -> bool {
    -0x80_0000 <= v < 0x80_0000
}

/// `set_bits(bitmap, n)` lists, in strictly increasing order, exactly the set
/// bits below `n`.
pub proof fn lemma_set_bits(bitmap: TickBitmap, n: nat)
    ensures
        forall|i: int| 0 <= i < set_bits(bitmap, n).len() ==> 0 <= #[trigger] set_bits(bitmap, n)[i] < n
            && bit_is_set(bitmap, set_bits(bitmap, n)[i]),
        forall|i: int, j: int|
            0 <= i < j < set_bits(bitmap, n).len() ==> #[trigger] set_bits(bitmap, n)[i] < #[trigger] set_bits(bitmap, n)[j],
        forall|b: int| 0 <= b < n && bit_is_set(bitmap, b) ==> #[trigger] set_bits(bitmap, n).contains(b),
    decreases n,
{
    if n > 0 {
        lemma_set_bits(bitmap, (n - 1) as nat);
        let before = set_bits(bitmap, (n - 1) as nat);
        assert forall|b: int| 0 <= b < n && bit_is_set(bitmap, b) implies #[trigger] set_bits(bitmap, n).contains(b) by {
            if b < n - 1 {
                assert(before.contains(b));
                let k = choose|k: int| 0 <= k < before.len() && before[k] == b;
                assert(set_bits(bitmap, n)[k] == b);
            } else {
                assert(set_bits(bitmap, n)[set_bits(bitmap, n).len() - 1] == b);
            }
        }
    }
}

/// The ticks of the set bits of a bitmap word, in bit order; `None` when one
/// of them does not fit in an `int24`.
pub fn ticks_in_word(word: i16, bitmap: TickBitmap, tick_spacing: i32) -> (ticks: Option<Vec<i32>>)
    ensures
        ticks is Some <==> (forall|i: int|
            0 <= i < word_ticks(word as int, bitmap, tick_spacing as int).len()
                ==> fits_int24(#[trigger] word_ticks(word as int, bitmap, tick_spacing as int)[i])),
        ticks matches Some(t) ==> t@.len() == word_ticks(word as int, bitmap, tick_spacing as int).len()
            && forall|i: int| 0 <= i < t@.len()
                ==> #[trigger] t@[i] as int == word_ticks(word as int, bitmap, tick_spacing as int)[i],
{
    let ghost w = word as int;
    let ghost s = tick_spacing as int;
    let mut ticks: Vec<i32> = Vec::new();
    let mut bit: u32 = 0;
    while bit < 256
        invariant
            w == word as int,
            s == tick_spacing as int,
            bit <= 256,
            ticks@.len() == set_bits(bitmap, bit as nat).len(),
            forall|i: int| 0 <= i < ticks@.len()
                ==> #[trigger] ticks@[i] as int == tick_at(w, set_bits(bitmap, bit as nat)[i], s)
                    && fits_int24(ticks@[i] as int),
        decreases 256 - bit,
    {
        let is_set = if bit < 128 {
            bitmap.low & (1u128 << bit) != 0
        } else {
            bitmap.high & (1u128 << (bit - 128)) != 0
        };
        assert(bit_is_set(bitmap, bit as int) == is_set);
        if is_set {
            let index: i64 = word as i64 * 256 + bit as i64;
            assert(-32768 * 256 <= index < 32768 * 256);
            assert(-0x8000_0000 * 0x80_0000 <= index * tick_spacing <= 0x8000_0000 * 0x80_0000)
                by (nonlinear_arith)
                requires -32768 * 256 <= index < 32768 * 256, i32::MIN <= tick_spacing <= i32::MAX;
            let tick: i64 = index * tick_spacing as i64;
            if tick < -0x80_0000 || tick >= 0x80_0000 {
                proof {
                    lemma_set_bits_prefix(bitmap, (bit + 1) as nat, 256);
                    let k = set_bits(bitmap, bit as nat).len() as int;
                    assert(set_bits(bitmap, (bit + 1) as nat)[k] == bit);
                    assert(set_bits(bitmap, 256)[k] == bit);
                    assert(word_ticks(w, bitmap, s)[k] == tick_at(w, bit as int, s));
                    assert(index as int == w * 256 + bit as int);
                    assert(tick as int == tick_at(w, bit as int, s));
                    assert(!fits_int24(word_ticks(w, bitmap, s)[k]));
                }
                return None;
            }
            ticks.push(tick as i32);
        }
        bit = bit + 1;
    }
    proof {
        assert forall|i: int| 0 <= i < word_ticks(w, bitmap, s).len()
            implies fits_int24(#[trigger] word_ticks(w, bitmap, s)[i]) by {
            assert(word_ticks(w, bitmap, s)[i] == ticks@[i] as int);
        }
        assert forall|i: int| 0 <= i < ticks@.len()
            implies #[trigger] ticks@[i] as int == word_ticks(w, bitmap, s)[i] by {
        }
    }
    Some(ticks)
}

/// `set_bits(bitmap, n)` is a prefix of `set_bits(bitmap, m)` for `n <= m`.
proof fn lemma_set_bits_prefix(bitmap: TickBitmap, n: nat, m: nat)
    requires
        n <= m,
    ensures
        set_bits(bitmap, n).len() <= set_bits(bitmap, m).len(),
        forall|i: int| 0 <= i < set_bits(bitmap, n).len()
            ==> #[trigger] set_bits(bitmap, m)[i] == set_bits(bitmap, n)[i],
    decreases m - n,
{
    if n < m {
        lemma_set_bits_prefix(bitmap, n, (m - 1) as nat);
    }
}

/// Every tick that a bitmap word yields compresses back into that word, at a
/// set bit; and every set bit of the word yields its tick.
pub proof fn lemma_word_ticks_positions(word: int, bitmap: TickBitmap, tick_spacing: int)
    requires
        tick_spacing != 0,
    ensures
        forall|i: int| 0 <= i < word_ticks(word, bitmap, tick_spacing).len() ==> {
            let c = compressed_tick(#[trigger] word_ticks(word, bitmap, tick_spacing)[i], tick_spacing);
            &&& word_of(c) == word
            &&& bit_is_set(bitmap, bit_of(c))
        },
        forall|bit: int| #[trigger] bit_is_set(bitmap, bit)
            ==> word_ticks(word, bitmap, tick_spacing).contains(tick_at(word, bit, tick_spacing)),
{
    lemma_set_bits(bitmap, 256);
    let bits = set_bits(bitmap, 256);
    assert forall|i: int| 0 <= i < word_ticks(word, bitmap, tick_spacing).len() implies {
        let c = compressed_tick(#[trigger] word_ticks(word, bitmap, tick_spacing)[i], tick_spacing);
        &&& word_of(c) == word
        &&& bit_is_set(bitmap, bit_of(c))
    } by {
        let b = bits[i];
        lemma_compress_of_multiple(word * 256 + b, tick_spacing);
        vstd::arithmetic::div_mod::lemma_fundamental_div_mod_converse(word * 256 + b, 256, word, b);
        vstd::arithmetic::div_mod::lemma_fundamental_div_mod_converse_mod(word * 256 + b, 256, word, b);
    }
    assert forall|bit: int| #[trigger] bit_is_set(bitmap, bit)
        implies word_ticks(word, bitmap, tick_spacing).contains(tick_at(word, bit, tick_spacing)) by {
        assert(bits.contains(bit));
        let k = choose|k: int| 0 <= k < bits.len() && bits[k] == bit;
        assert(word_ticks(word, bitmap, tick_spacing)[k] == tick_at(word, bit, tick_spacing));
    }
}

/// The ticks of a bitmap word come in strictly increasing order for a
/// positive spacing, and in strictly decreasing order for a negative one.
pub proof fn lemma_word_ticks_ordered(word: int, bitmap: TickBitmap, tick_spacing: int)
    ensures
        forall|i: int, j: int| 0 <= i < j < word_ticks(word, bitmap, tick_spacing).len() ==> {
            &&& tick_spacing > 0 ==> #[trigger] word_ticks(word, bitmap, tick_spacing)[i]
                < #[trigger] word_ticks(word, bitmap, tick_spacing)[j]
            &&& tick_spacing < 0 ==> word_ticks(word, bitmap, tick_spacing)[i]
                > word_ticks(word, bitmap, tick_spacing)[j]
        },
{
    lemma_set_bits(bitmap, 256);
    let bits = set_bits(bitmap, 256);
    assert forall|i: int, j: int| 0 <= i < j < word_ticks(word, bitmap, tick_spacing).len() implies {
        &&& tick_spacing > 0 ==> #[trigger] word_ticks(word, bitmap, tick_spacing)[i]
            < #[trigger] word_ticks(word, bitmap, tick_spacing)[j]
        &&& tick_spacing < 0 ==> word_ticks(word, bitmap, tick_spacing)[i]
            > word_ticks(word, bitmap, tick_spacing)[j]
    } by {
        let a = word * 256 + bits[i];
        let b = word * 256 + bits[j];
        assert(bits[i] < bits[j]);
        assert(tick_spacing > 0 ==> a * tick_spacing < b * tick_spacing) by (nonlinear_arith)
            requires a < b;
        assert(tick_spacing < 0 ==> a * tick_spacing > b * tick_spacing) by (nonlinear_arith)
            requires a < b;
    }
}

/// For a positive spacing, the words between the two that `word_positions`
/// gives hold every tick from `MIN_TICK` to `MAX_TICK`.
pub proof fn lemma_word_positions_cover(tick_spacing: int, tick: int)
    requires
        tick_spacing > 0,
        MIN_TICK <= tick <= MAX_TICK,
    ensures
        word_positions(tick_spacing).0 <= word_of(compressed_tick(tick, tick_spacing))
            <= word_positions(tick_spacing).1,
{
    lemma_compressed_is_floor(tick, tick_spacing);
    lemma_compressed_is_floor(MIN_TICK as int, tick_spacing);
    lemma_compressed_is_floor(MAX_TICK as int, tick_spacing);
    vstd::arithmetic::div_mod::lemma_div_is_ordered(MIN_TICK as int, tick, tick_spacing);
    vstd::arithmetic::div_mod::lemma_div_is_ordered(tick, MAX_TICK as int, tick_spacing);
    vstd::arithmetic::div_mod::lemma_div_is_ordered(MIN_TICK as int / tick_spacing, tick / tick_spacing, 256);
    vstd::arithmetic::div_mod::lemma_div_is_ordered(tick / tick_spacing, MAX_TICK as int / tick_spacing, 256);
}

/// For a positive spacing, compressing keeps the order of ticks.
pub proof fn lemma_compress_monotone(tick_a: int, tick_b: int, tick_spacing: int)
    requires
        tick_spacing > 0,
        tick_a <= tick_b,
    ensures
        compressed_tick(tick_a, tick_spacing) <= compressed_tick(tick_b, tick_spacing),
{
    lemma_compressed_is_floor(tick_a, tick_spacing);
    lemma_compressed_is_floor(tick_b, tick_spacing);
    vstd::arithmetic::div_mod::lemma_div_is_ordered(tick_a, tick_b, tick_spacing);
}

} // verus!
