//! Deterministic PCG32 random numbers. The same seed yields the same sequence on
//! every platform, which is what lets all players build one world.
//!
//! A draw "in [0, 1)" is kept as its numerator over 2^24. Single precision holds
//! every such fraction exactly, so nothing is lost, and an integer drawn from it is
//! computed here with the rounding that single precision would apply.

use vstd::arithmetic::div_mod::{lemma_add_mod_noop, lemma_small_mod};
use vstd::prelude::*;

verus! {

/// The multiplier of the 64-bit congruential generator under PCG32.
pub const MULTIPLIER: u64 = 6364136223846793005;

/// A draw in [0, 1) is a numerator over this many parts.
pub const PARTS: u32 = 0x100_0000;

/// Rotates the 32 bits of `x` right by `r` places, for `r` below 32.
pub open spec fn rotated_right(x: u32, r: u32) -> u32 {
    (x >> r) | (x << ((32 - r) as u32 % 32))
}

/// The generator's state and its odd increment.
pub struct RngView {
    pub state: u64,
    pub inc: u64,
}

impl RngView {
    /// The generator after one draw.
    pub open spec fn next(self) -> RngView {
        RngView {
            state: ((self.state * MULTIPLIER + self.inc) % 0x1_0000_0000_0000_0000) as u64,
            ..self
        }
    }

    /// What one draw yields: the high bits of the old state, xorshifted and rotated
    /// by its top five bits.
    pub open spec fn drawn(self) -> u32 {
        rotated_right((((self.state >> 18) ^ self.state) >> 27) as u32, (self.state >> 59) as u32)
    }

    /// The generator a seed gives.
    pub open spec fn seeded(seed: u64) -> RngView {
        let first = RngView { state: 0, inc: (seed << 1) | 1 }.next();
        RngView {
            state: ((first.state + seed) % 0x1_0000_0000_0000_0000) as u64,
            ..first
        }.next()
    }

    /// The generator after `n` draws.
    pub open spec fn after(self, n: nat) -> RngView
        decreases n,
    {
        if n == 0 {
            self
        } else {
            self.after((n - 1) as nat).next()
        }
    }

    /// The numerator, over `PARTS`, of a draw in [0, 1).
    pub open spec fn unit(self) -> u32 {
        self.drawn() >> 8
    }

    /// The integer in [0, n) that one draw gives.
    pub open spec fn picked(self, n: nat) -> nat {
        share(self.unit() as nat, n)
    }
}

/// The distance between neighbouring single-precision numbers around the integer
/// `x`, where it is at least 1: their significands hold 24 bits.
pub open spec fn spacing(x: nat) -> nat
    decreases x,
{
    if x < PARTS {
        1
    } else {
        2 * spacing(x / 2)
    }
}

/// The integer `x` rounded to 24 significant bits, a tie going to the even
/// significand.
pub open spec fn nearest_single(x: nat) -> nat {
    let unit = spacing(x);
    let below = x / unit;
    let rest = x % unit;
    if 2 * rest > unit || (2 * rest == unit && below % 2 == 1) {
        (below + 1) * unit
    } else {
        below * unit
    }
}

/// The integer that the fraction `unit / PARTS` selects out of `n`: their product in
/// single precision, rounded down, kept within a `usize` and taken modulo `n`.
pub open spec fn share(unit: nat, n: nat) -> nat {
    let product = nearest_single(unit * nearest_single(n)) / (PARTS as nat);
    let kept = if product > usize::MAX {
        usize::MAX as nat
    } else {
        product
    };
    if n == 0 {
        0
    } else {
        kept % n
    }
}

/// A draw out of some gives one of them.
pub proof fn law_picks_are_in_range(rng: RngView, n: nat)
    requires
        n > 0,
    ensures
        rng.picked(n) < n,
{
}

proof fn lemma_spacing(x: nat)
    ensures
        spacing(x) >= 1,
        x >= 1 ==> spacing(x) <= x,
    decreases x,
{
    if x >= PARTS {
        lemma_spacing(x / 2);
    }
}

proof fn lemma_nearest_single_bound(x: nat)
    ensures
        nearest_single(x) <= 2 * x,
{
    lemma_spacing(x);
    let unit = spacing(x);
    vstd::arithmetic::div_mod::lemma_fundamental_div_mod(x as int, unit as int);
    let below = x / unit;
    assert((below + 1) * unit == below * unit + unit) by (nonlinear_arith);
    assert(unit * below == below * unit) by (nonlinear_arith);
    if x == 0 {
        assert(below == 0);
    }
}

fn spacing_of(x: u128) -> (unit: u128)
    ensures
        unit == spacing(x as nat),
    decreases x,
{
    if x < PARTS as u128 {
        1
    } else {
        proof {
            lemma_spacing(x as nat / 2);
        }
        2 * spacing_of(x / 2)
    }
}

fn round_to_single(x: u128) -> (rounded: u128)
    requires
        2 * x <= u128::MAX,
    ensures
        rounded == nearest_single(x as nat),
{
    let unit = spacing_of(x);
    proof {
        lemma_spacing(x as nat);
        lemma_nearest_single_bound(x as nat);
        vstd::arithmetic::div_mod::lemma_fundamental_div_mod(x as int, unit as int);
    }
    let below = x / unit;
    let rest = x % unit;
    assert(below * unit <= x) by (nonlinear_arith)
        requires
            below == x / unit,
            unit >= 1,
    ;
    assert(below <= x) by (nonlinear_arith)
        requires
            below == x / unit,
            unit >= 1,
    ;
    if rest > unit - rest || (rest == unit - rest && below % 2 == 1) {
        (below + 1) * unit
    } else {
        below * unit
    }
}

/// A PCG32 generator.
#[derive(Clone)]
pub struct Rng {
    state: u64,
    inc: u64,
}

impl View for Rng {
    type V = RngView;

    closed spec fn view(&self) -> RngView {
        RngView { state: self.state, inc: self.inc }
    }
}

/// The state of the generator after one draw.
fn advanced(state: u64, inc: u64) -> (next: u64)
    ensures
        next == (RngView { state, inc }).next().state,
{
    proof {
        let product: int = state * MULTIPLIER;
        let range: int = 0x1_0000_0000_0000_0000;
        lemma_add_mod_noop(product, inc as int, range);
        lemma_small_mod(inc as nat, range as nat);
    }
    state.wrapping_mul(MULTIPLIER).wrapping_add(inc)
}

impl Rng {
    pub fn new(seed: u64) -> (rng: Self)
        ensures
            rng@ == RngView::seeded(seed),
    {
        let mut rng = Rng { state: 0, inc: (seed << 1) | 1 };
        rng.next_u32();
        rng.state = rng.state.wrapping_add(seed);
        rng.next_u32();
        rng
    }

    pub fn next_u32(&mut self) -> (x: u32)
        ensures
            x == old(self)@.drawn(),
            final(self)@ == old(self)@.next(),
    {
        let old_state = self.state;
        self.state = advanced(old_state, self.inc);
        let xorshifted: u32 = (((old_state >> 18) ^ old_state) >> 27) as u32;
        let rot: u32 = (old_state >> 59) as u32;
        assert((old_state >> 59) < 32) by (bit_vector);
        (xorshifted >> rot) | (xorshifted << ((32 - rot) % 32))
    }

    /// The numerator, over `PARTS`, of a uniform draw in [0, 1).
    pub fn unit(&mut self) -> (part: u32)
        ensures
            part == old(self)@.unit(),
            part < PARTS,
            final(self)@ == old(self)@.next(),
    {
        let x = self.next_u32();
        assert((x >> 8) < 0x100_0000u32) by (bit_vector);
        x >> 8
    }

    /// Uniform integer in [0, n).
    pub fn below(&mut self, n: usize) -> (picked: usize)
        ensures
            picked == old(self)@.picked(n as nat),
            n > 0 ==> picked < n,
            final(self)@ == old(self)@.next(),
    {
        let part = self.unit();
        proof {
            lemma_nearest_single_bound(n as nat);
        }
        let m = round_to_single(n as u128);
        assert(part * m <= 0x100_0000 * 0x2_0000_0000_0000_0000) by (nonlinear_arith)
            requires
                part < 0x100_0000,
                m <= 0x2_0000_0000_0000_0000,
        ;
        let product: u128 = round_to_single(part as u128 * m) / (PARTS as u128);
        let kept: usize = if product > usize::MAX as u128 {
            usize::MAX
        } else {
            product as usize
        };
        if n == 0 {
            0
        } else {
            kept % n
        }
    }
}

/// The range of a 64-bit number.
pub open spec fn words() -> int {
    0x1_0000_0000_0000_0000
}

/// The stream runs by a congruence: two states grow apart by the multiplier, the state zero
/// goes to the increment, and the increment stays.
pub proof fn law_streams_are_congruential(a: RngView, b: RngView)
    requires
        a.inc == b.inc,
    ensures
        (a.next().state - b.next().state) % words() == (6364136223846793005 * (a.state
            - b.state)) % words(),
        b.state == 0 ==> b.next().state == b.inc,
        a.next().inc == a.inc,
{
    let x: int = a.state * MULTIPLIER + a.inc;
    let y: int = b.state * MULTIPLIER + b.inc;
    vstd::arithmetic::div_mod::lemma_sub_mod_noop(x, y, words());
    assert(x - y == 6364136223846793005 * (a.state - b.state)) by (nonlinear_arith)
        requires
            x == a.state * MULTIPLIER + a.inc,
            y == b.state * MULTIPLIER + b.inc,
            a.inc == b.inc,
            MULTIPLIER == 6364136223846793005,
    ;
    if b.state == 0 {
        assert(y == b.inc);
        lemma_small_mod(b.inc as nat, words() as nat);
    }
}

/// A seed gives a stream of its own: its increment is odd and holds the seed, and it starts
/// where one step leads from the increment and the seed together.
pub proof fn law_seeds_give_their_own_streams(seed: u64, other: u64)
    ensures
        ({
            let rng = RngView::seeded(seed);
            &&& rng.inc % 2 == 1
            &&& rng.inc == (2 * seed + 1) % words()
            &&& rng == (RngView {
                state: ((rng.inc + seed) % words()) as u64,
                inc: rng.inc,
            }).next()
        }),
        seed < 0x8000_0000_0000_0000 && other < 0x8000_0000_0000_0000 && seed != other
            ==> RngView::seeded(seed).inc != RngView::seeded(other).inc,
{
    lemma_odd(seed);
    lemma_odd(other);
    let start = RngView { state: 0, inc: (seed << 1) | 1 };
    law_streams_are_congruential(start, start);
}

proof fn lemma_odd(seed: u64)
    ensures
        ((seed << 1) | 1) == (2 * seed + 1) % words(),
        ((seed << 1) | 1) % 2 == 1,
{
    assert(((seed << 1) | 1) == if seed < 0x8000_0000_0000_0000 {
        (2 * seed + 1) as u64
    } else {
        (2 * (seed - 0x8000_0000_0000_0000) as u64 + 1) as u64
    }) by (bit_vector);
    assert(((seed << 1) | 1) % 2 == 1) by (bit_vector);
}

/// Bit `k` of a number.
pub open spec fn bit(x: u64, k: u64) -> bool {
    (x >> k) & 1 == 1
}

/// What is drawn is the high bits of the state, folded over themselves and turned by the five
/// highest: bit `k` stems from bits `j + 27` and `j + 45`, where `j` is `k` turned.
pub proof fn law_draws_fold_the_state(rng: RngView, k: u64)
    requires
        k < 32,
    ensures
        ({
            let j = ((k + rng.state / 0x800_0000_0000_0000) % 32) as u64;
            bit(rng.drawn() as u64, k) == (bit(rng.state, (j + 27) as u64) != (j + 45 < 64 && bit(
                rng.state,
                (j + 45) as u64,
            )))
        }),
{
    let s = rng.state;
    let r = s >> 59;
    let x = (((s >> 18) ^ s) >> 27) as u32;
    let d = (x >> (r as u32)) | (x << ((32 - r as u32) as u32 % 32));
    assert(r < 32 && r == s / 0x800_0000_0000_0000) by (bit_vector)
        requires
            r == s >> 59,
    ;
    let j = ((k + r) % 32) as u64;
    assert(j == if k + r < 32 {
        k + r
    } else {
        k + r - 32
    });
    assert((((d as u64) >> k) & 1 == 1) == ((((x as u64) >> j) & 1) == 1)) by (bit_vector)
        requires
            k < 32,
            r < 32,
            j == (if k + r < 32 {
                (k + r) as u64
            } else {
                (k + r - 32) as u64
            }),
            d == (x >> (r as u32)) | (x << ((32 - r as u32) as u32 % 32)),
    ;
    let low = (j + 27) as u64;
    let high = (j + 45) as u64;
    assert((((x as u64) >> j) & 1 == 1) == (((s >> low) & 1 == 1) != (high < 64 && (s >> high) & 1
        == 1))) by (bit_vector)
        requires
            j < 32,
            low == j + 27,
            high == j + 45,
            x == (((s >> 18) ^ s) >> 27) as u32,
    ;
}

/// A draw in [0, 1) is the number drawn over 2^32, cut to 24 bits.
pub proof fn law_units_are_draws_cut(rng: RngView)
    ensures
        256 * rng.unit() <= rng.drawn() < 256 * rng.unit() + 256,
{
    let x = rng.drawn();
    assert((x >> 8) == x / 256) by (bit_vector);
}

/// The distance between neighbouring single-precision numbers leaves 24 bits: a number is
/// worth at least 2^23 of them and less than 2^24, and below that they are the integers.
pub proof fn law_singles_have_24_bits(x: nat)
    ensures
        x < 0x100_0000 ==> spacing(x) == 1,
        x >= 0x80_0000 ==> 0x80_0000 * spacing(x) <= x,
        x < 0x100_0000 * spacing(x),
    decreases x,
{
    if x >= PARTS {
        law_singles_have_24_bits(x / 2);
    }
}

/// Rounding goes to the nearest single-precision number, and leaves one that is one alone.
/// Halfway it goes to the even one.
pub proof fn law_rounding_is_to_nearest(x: nat, k: int)
    ensures
        ({
            let unit = spacing(x) as int;
            let r = nearest_single(x) as int;
            &&& unit >= 1
            &&& -unit <= 2 * (r - x) <= unit
            &&& r % unit == 0
            &&& x == k * unit ==> r == x
            &&& 2 * (r - x) == unit || 2 * (x - r) == unit ==> (r / unit) % 2 == 0
        }),
{
    lemma_spacing(x);
    let unit = spacing(x) as int;
    let below = x as int / unit;
    let rest = x as int % unit;
    let r = nearest_single(x) as int;
    vstd::arithmetic::div_mod::lemma_fundamental_div_mod(x as int, unit);
    assert(unit * below == below * unit) by (nonlinear_arith);
    assert((below + 1) * unit == below * unit + unit) by (nonlinear_arith);
    let m = if 2 * rest > unit || (2 * rest == unit && below % 2 == 1) {
        below + 1
    } else {
        below
    };
    assert(r == m * unit);
    vstd::arithmetic::div_mod::lemma_div_multiples_vanish(m, unit);
    assert(m * unit == unit * m) by (nonlinear_arith);
    vstd::arithmetic::div_mod::lemma_mod_multiples_basic(m, unit);
    if x == k * unit {
        vstd::arithmetic::div_mod::lemma_mod_multiples_basic(k, unit);
    }
}

/// Picking out of `n` takes that share of `n`: the draw times `n`, as far as single precision
/// tells, and always one of the `n`.
pub proof fn law_picks_are_proportional(rng: RngView, n: nat)
    requires
        0 < n <= usize::MAX,
    ensures
        ({
            let product = nearest_single(rng.unit() as nat * nearest_single(n));
            let k = rng.picked(n);
            &&& k < n
            &&& product < 0x100_0000 * n ==> 0x100_0000 * k <= product < 0x100_0000 * k
                + 0x100_0000
            &&& 0x100_0000 * n <= product < 0x200_0000 * n && 2 * n <= usize::MAX
                ==> 0x100_0000 * (k + n) <= product < 0x100_0000 * (k + n) + 0x100_0000
        }),
{
    let product = nearest_single(rng.unit() as nat * nearest_single(n));
    let q = product / (PARTS as nat);
    if product < 0x100_0000 * n {
        assert(q < n);
        lemma_small_mod(q, n);
    } else if product < 0x200_0000 * n && 2 * n <= usize::MAX {
        assert(n <= q < 2 * n);
        vstd::arithmetic::div_mod::lemma_fundamental_div_mod_converse(
            q as int,
            n as int,
            1,
            q - n,
        );
    }
}

} // verus!
