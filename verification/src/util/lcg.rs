//! A linear congruential generator, which spreads insertions over the buckets of a store.

use vstd::prelude::*;

verus! {

const MULTIPLIER: u32 = 1103515245;

const CONSTANT: u32 = 12345;

/// The state of the generator after `state`.
pub open spec fn next_state(state: u32) -> u32 {
    ((state * 1103515245 + 12345) % 0x1_0000_0000) as u32
}

/// The state of the generator `n` steps after `state`.
pub open spec fn nth_state(state: u32, n: nat) -> u32
    decreases n,
{
    if n == 0 {
        state
    } else {
        next_state(nth_state(state, (n - 1) as nat))
    }
}

/// Moves the generator on by one step.
pub fn advance(state: &mut u32)
    ensures
        *final(state) == next_state(*old(state)),
{
    proof {
        let range: int = 0x1_0000_0000;
        let product: int = *state * 1103515245;
        let low: int = product % range;
        let quotient: int = product / range;
        vstd::arithmetic::div_mod::lemma_fundamental_div_mod(product, range);
        if low + 12345 < range {
            vstd::arithmetic::div_mod::lemma_fundamental_div_mod_converse(
                product + 12345,
                range,
                quotient,
                low + 12345,
            );
        } else {
            vstd::arithmetic::div_mod::lemma_fundamental_div_mod_converse(
                product + 12345,
                range,
                quotient + 1,
                low + 12345 - range,
            );
        }
    }
    *state = state.wrapping_mul(MULTIPLIER).wrapping_add(CONSTANT);
}

/// The place of a state in the cycle that its remainder modulo 16 runs through.
#[verifier::opaque]
pub open spec fn place_in_cycle(state: u32) -> int {
    let r = state % 16;
    if r == 0 {
        0
    } else if r == 9 {
        1
    } else if r == 14 {
        2
    } else if r == 15 {
        3
    } else if r == 12 {
        4
    } else if r == 5 {
        5
    } else if r == 10 {
        6
    } else if r == 11 {
        7
    } else if r == 8 {
        8
    } else if r == 1 {
        9
    } else if r == 6 {
        10
    } else if r == 7 {
        11
    } else if r == 4 {
        12
    } else if r == 13 {
        13
    } else if r == 2 {
        14
    } else {
        15
    }
}

proof fn lemma_next_remainder(state: u32)
    ensures
        next_state(state) % 16 == (state % 16 * 13 + 9) % 16,
{
    let quotient: int = (state * 1103515245 + 12345) / 0x1_0000_0000;
    assert(next_state(state) == state * 1103515245 + 12345 - quotient * 0x1_0000_0000);
    let sixteenths: int = (state / 16) as int;
    assert(state == sixteenths * 16 + state % 16);
}

proof fn lemma_next_place(state: u32)
    ensures
        place_in_cycle(next_state(state)) == (place_in_cycle(state) + 1) % 16,
{
    reveal(place_in_cycle);
    lemma_next_remainder(state);
}

proof fn lemma_nth_place(state: u32, n: nat)
    ensures
        place_in_cycle(nth_state(state, n)) == (place_in_cycle(state) + n) % 16,
    decreases n,
{
    assert(0 <= place_in_cycle(state) < 16) by {
        reveal(place_in_cycle);
    }
    if n > 0 {
        lemma_nth_place(state, (n - 1) as nat);
        lemma_next_place(nth_state(state, (n - 1) as nat));
    }
}

proof fn lemma_remainders_differ(x: int, y: int)
    requires
        x < y < x + 16,
    ensures
        x % 16 != y % 16,
{
}

proof fn lemma_same_remainder_same_place(a: u32, b: u32)
    ensures
        a % 16 == b % 16 ==> place_in_cycle(a) == place_in_cycle(b),
{
    reveal(place_in_cycle);
}

/// Any sixteen successive states have sixteen different remainders modulo 16.
pub proof fn law_successive_remainders_differ(state: u32, i: nat, j: nat)
    requires
        i < j < i + 16,
    ensures
        nth_state(state, i) % 16 != nth_state(state, j) % 16,
{
    lemma_nth_place(state, i);
    lemma_nth_place(state, j);
    lemma_remainders_differ(place_in_cycle(state) + i, place_in_cycle(state) + j);
    lemma_same_remainder_same_place(nth_state(state, i), nth_state(state, j));
}

/// The generator starts at a fixed state, and states that lie one apart are followed by states that
/// lie the multiplier apart, both wrapped around.
pub proof fn law_steps_are_linear(state: u32)
    requires
        state < u32::MAX,
    ensures
        next_state(0) == 12345,
        next_state((state + 1) as u32) == (next_state(state) + 1103515245) % 0x1_0000_0000,
{
    let before: int = state * 1103515245 + 12345;
    let quotient: int = before / 0x1_0000_0000;
    assert((state + 1) * 1103515245 + 12345 == before + 1103515245);
    assert(before == quotient * 0x1_0000_0000 + next_state(state));
    vstd::arithmetic::div_mod::lemma_mod_multiples_vanish(
        quotient,
        next_state(state) + 1103515245,
        0x1_0000_0000,
    );
}

} // verus!
