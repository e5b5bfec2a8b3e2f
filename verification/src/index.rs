//! Arithmetic of ring positions.
//!
//! A ring counter is a `u32` that only ever grows and wraps at 2^32. The slot
//! that a position occupies in a ring of `entries` slots is the position
//! modulo `entries`; because `entries` is a power of two this is the position
//! masked with `entries - 1`, and it stays consistent across the wrap.

use vstd::arithmetic::div_mod::{
    lemma_fundamental_div_mod, lemma_mod_mod, lemma_mod_multiples_vanish,
};
use vstd::arithmetic::power2::{
    lemma2_to64, lemma_pow2_adds, lemma_pow2_pos, lemma_pow2_strictly_increases,
    lemma_pow2_unfold, pow2,
};
use vstd::bits::{lemma_u32_low_bits_mask_is_mod, low_bits_mask};
use vstd::prelude::*;

verus! {

/// `n` is one of 2^0, 2^1, ..., 2^31.
pub open spec fn is_power_of_two(n: u32) -> bool {
    exists|k: nat| k < 32 && n == #[trigger] pow2(k)
}

/// The position `n` steps after `pos`.
#[verifier::opaque]
pub open spec fn advance(pos: u32, n: int) -> u32 {
    ((pos + n) % 0x1_0000_0000) as u32
}

/// The number of steps that lead from `from` to `to`.
#[verifier::opaque]
pub open spec fn distance(from: u32, to: u32) -> int {
    (to - from) % 0x1_0000_0000
}

/// The slot that position `pos` occupies in a ring of `entries` slots.
#[verifier::opaque]
pub open spec fn slot(pos: u32, entries: u32) -> int {
    pos as int % entries as int
}

/// Halving a power of two larger than one gives a power of two.
proof fn lemma_halve(n: u32)
    requires
        is_power_of_two(n),
        n != 1,
    ensures
        n % 2 == 0,
        is_power_of_two(n / 2),
{
    let k: nat = choose|k: nat| k < 32 && n == #[trigger] pow2(k);
    lemma2_to64();
    assert(k != 0);
    lemma_pow2_unfold(k);
    assert(n / 2 == pow2((k - 1) as nat));
}

/// Doubling a power of two below 2^31 gives a power of two.
proof fn lemma_double(m: u32)
    requires
        is_power_of_two(m),
        m < 0x8000_0000,
    ensures
        is_power_of_two((2 * m) as u32),
{
    let k: nat = choose|k: nat| k < 32 && m == #[trigger] pow2(k);
    lemma2_to64();
    lemma_pow2_unfold(k + 1);
    if k + 1 >= 32 {
        if k + 1 > 32 {
            lemma_pow2_strictly_increases(32, k + 1);
        }
        lemma_pow2_strictly_increases(31, 32);
    }
    assert(2 * m == pow2(k + 1));
}

/// A `u32` is a power of two exactly when it is not zero and shares no bit
/// with its predecessor.
pub proof fn lemma_power_of_two_bits(n: u32)
    ensures
        is_power_of_two(n) <==> (n != 0 && n & ((n - 1) as u32) == 0),
    decreases n,
{
    lemma2_to64();
    if n == 0 {
        if is_power_of_two(n) {
            let k: nat = choose|k: nat| k < 32 && n == #[trigger] pow2(k);
            lemma_pow2_pos(k);
        }
    } else if n == 1 {
        assert(1u32 & ((1u32 - 1) as u32) == 0) by (bit_vector);
        assert(1 == pow2(0));
    } else {
        let h: u32 = n / 2;
        let pred: u32 = (n - 1) as u32;
        let hpred: u32 = (h - 1) as u32;
        lemma_power_of_two_bits(h);
        if is_power_of_two(n) {
            lemma_halve(n);
            assert(n & pred == 0) by (bit_vector)
                requires
                    n > 1,
                    n % 2 == 0,
                    h == n / 2,
                    pred == n - 1,
                    hpred == h - 1,
                    h & hpred == 0,
            ;
        }
        if n & pred == 0 {
            assert(n % 2 == 0 && h & hpred == 0 && h < 0x8000_0000) by (bit_vector)
                requires
                    n > 1,
                    h == n / 2,
                    pred == n - 1,
                    hpred == h - 1,
                    n & pred == 0,
            ;
            lemma_double(h);
        }
    }
}

/// Whether `n` is a power of two.
pub fn power_of_two(n: u32) -> (yes: bool)
    ensures
        yes == is_power_of_two(n),
        yes ==> n > 0,
{
    proof {
        lemma_power_of_two_bits(n);
    }
    n != 0 && n & (n - 1) == 0
}

/// The position after `pos`.
pub fn step(pos: u32) -> (next: u32)
    ensures
        next == advance(pos, 1),
{
    proof {
        reveal(advance);
    }
    pos.wrapping_add(1)
}

/// The position `n` steps after `pos`.
pub fn steps(pos: u32, n: u32) -> (reached: u32)
    ensures
        reached == advance(pos, n as int),
{
    proof {
        reveal(advance);
    }
    pos.wrapping_add(n)
}

/// The number of steps that lead from `from` to `to`.
pub fn gap(from: u32, to: u32) -> (n: u32)
    ensures
        n == distance(from, to),
{
    proof {
        reveal(distance);
    }
    to.wrapping_sub(from)
}

/// The bits of `pos` that `mask` lets through: where `mask` is one less
/// than a power of two, the slot of `pos` in a ring of that many slots.
pub fn masked(pos: u32, mask: u32) -> (index: u32)
    ensures
        index == pos & mask,
        mask < u32::MAX && is_power_of_two((mask + 1) as u32) ==> {
            &&& index == slot(pos, (mask + 1) as u32)
            &&& index <= mask
        },
{
    proof {
        if mask < u32::MAX && is_power_of_two((mask + 1) as u32) {
            lemma_mask_is_slot(pos, (mask + 1) as u32);
        }
    }
    pos & mask
}

/// Masking a position with `entries - 1` gives its slot, and the slot lies
/// inside the ring.
pub proof fn lemma_mask_is_slot(pos: u32, entries: u32)
    requires
        is_power_of_two(entries),
    ensures
        pos & ((entries - 1) as u32) == slot(pos, entries),
        0 <= slot(pos, entries) < entries,
{
    reveal(slot);
    let k: nat = choose|k: nat| k < 32 && entries == #[trigger] pow2(k);
    lemma_pow2_pos(k);
    lemma_u32_low_bits_mask_is_mod(pos, k);
    assert(low_bits_mask(k) == entries - 1);
}

/// A power of two divides the range of a ring counter.
pub proof fn lemma_divides_range(entries: u32) -> (q: int)
    requires
        is_power_of_two(entries),
    ensures
        0 < entries,
        0 < q,
        entries * q == 0x1_0000_0000,
{
    let k: nat = choose|k: nat| k < 32 && entries == #[trigger] pow2(k);
    lemma2_to64();
    lemma_pow2_pos(k);
    lemma_pow2_adds(k, (32 - k) as nat);
    lemma_pow2_pos((32 - k) as nat);
    pow2((32 - k) as nat) as int
}

/// The slot of a position reached by advancing is found by advancing the
/// slot, whether or not the counter wrapped on the way.
pub proof fn lemma_slot_advance(pos: u32, n: int, entries: u32)
    requires
        is_power_of_two(entries),
    ensures
        slot(advance(pos, n), entries) == (pos + n) % (entries as int),
{
    reveal(slot);
    reveal(advance);
    let q: int = lemma_divides_range(entries);
    lemma_mod_mod(pos + n, entries as int, q);
}

/// Advancing by the size of the ring leads back to the same slot.
pub proof fn lemma_slot_period(pos: u32, n: int, entries: u32)
    requires
        is_power_of_two(entries),
    ensures
        slot(advance(pos, n + entries), entries) == slot(advance(pos, n), entries),
{
    lemma_slot_advance(pos, n, entries);
    lemma_slot_advance(pos, n + entries, entries);
    let _ = lemma_divides_range(entries);
    lemma_mod_multiples_vanish(1, pos + n, entries as int);
}

/// Positions less than a ring apart occupy different slots.
pub proof fn lemma_slots_distinct(pos: u32, i: int, j: int, entries: u32)
    requires
        is_power_of_two(entries),
        0 <= i < j < entries,
    ensures
        slot(advance(pos, i), entries) != slot(advance(pos, j), entries),
{
    lemma_slot_advance(pos, i, entries);
    lemma_slot_advance(pos, j, entries);
    let e: int = entries as int;
    let a: int = pos + i;
    let b: int = pos + j;
    lemma_fundamental_div_mod(a, e);
    lemma_fundamental_div_mod(b, e);
    if a % e == b % e {
        assert(b - a == e * (b / e - a / e)) by (nonlinear_arith)
            requires
                a == e * (a / e) + a % e,
                b == e * (b / e) + b % e,
                a % e == b % e,
        ;
        let d: int = b / e - a / e;
        assert(false) by (nonlinear_arith)
            requires
                0 < b - a < e,
                b - a == e * d,
        ;
    }
}

/// Advancing by nothing stays in place.
pub proof fn lemma_advance_zero(pos: u32)
    ensures
        advance(pos, 0) == pos,
{
    reveal(advance);
}

/// Advancing in two steps is advancing by their sum.
pub proof fn lemma_advance_twice(pos: u32, a: int, b: int)
    ensures
        advance(advance(pos, a), b) == advance(pos, a + b),
{
    reveal(advance);
}

/// A distance is a count of steps below the counter range, and only a
/// position is at distance zero from itself.
pub proof fn lemma_distance_range(from: u32, to: u32)
    ensures
        0 <= distance(from, to) < 0x1_0000_0000,
        distance(from, to) == 0 <==> from == to,
{
    reveal(distance);
}

/// Advancing by the distance to a position reaches it.
pub proof fn lemma_advance_distance(from: u32, to: u32)
    ensures
        advance(from, distance(from, to)) == to,
{
    reveal(advance);
    reveal(distance);
}

/// A position on the way from `from` to `to` is as much nearer to `to` as
/// it is away from `from`.
pub proof fn lemma_distance_rest(from: u32, to: u32, n: int)
    requires
        0 <= n <= distance(from, to),
    ensures
        distance(advance(from, n), to) == distance(from, to) - n,
{
    reveal(advance);
    reveal(distance);
}

/// Moving the far end one step on lengthens the distance by one, unless
/// that exhausts the counter range.
pub proof fn lemma_distance_grows(from: u32, to: u32, n: int)
    requires
        0 <= n,
        distance(from, to) + n < 0x1_0000_0000,
    ensures
        distance(from, advance(to, n)) == distance(from, to) + n,
{
    reveal(advance);
    reveal(distance);
}

} // verus!
