//! Powers of two, and the permutation of slots within a block.

use vstd::prelude::*;

verus! {

pub open spec fn is_power_of_two(n: u32) -> bool {
    n != 0 && n & (n - 1) as u32 == 0
}

/// Where the logical slot `slot` of a block of `len` slots lies within that block.
pub open spec fn scramble(slot: u32, len: u32) -> u32 {
    (slot * 3) as u32 & (len - 1) as u32
}

/// The logical slot that lies at `index` within a block of `len` slots.
pub open spec fn unscramble(index: u32, len: u32) -> u32 {
    (index * 0xaaaa_aaab) as u32 & (len - 1) as u32
}

pub proof fn lemma_one_is_power_of_two()
    by (bit_vector)
    ensures
        is_power_of_two(1),
{
}

pub proof fn lemma_double(n: u32)
    by (bit_vector)
    requires
        is_power_of_two(n),
        n < 0x8000_0000,
    ensures
        is_power_of_two((n * 2) as u32),
        n <= 0x4000_0000,
{
}

pub proof fn lemma_half(n: u32)
    by (bit_vector)
    requires
        is_power_of_two(n),
        n != 1,
    ensures
        is_power_of_two(n / 2),
        n % 2 == 0,
{
}

pub proof fn lemma_next_power_of_two(a: u32, b: u32)
    by (bit_vector)
    requires
        is_power_of_two(a),
        is_power_of_two(b),
        a < b,
    ensures
        2 * a <= b,
{
}

pub proof fn lemma_scramble_bounded(slot: u32, len: u32)
    by (bit_vector)
    requires
        is_power_of_two(len),
    ensures
        scramble(slot, len) < len,
        unscramble(slot, len) < len,
        len <= 0x8000_0000,
{
}

pub proof fn lemma_scramble_injective(a: u32, b: u32, len: u32)
    by (bit_vector)
    requires
        is_power_of_two(len),
        a < len,
        b < len,
        scramble(a, len) == scramble(b, len),
    ensures
        a == b,
{
}

pub proof fn lemma_scramble_surjective(index: u32, len: u32)
    by (bit_vector)
    requires
        is_power_of_two(len),
        index < len,
    ensures
        scramble(unscramble(index, len), len) == index,
        unscramble(scramble(index, len), len) == index,
{
}

proof fn lemma_mask_step(x: u64, len: u32)
    by (bit_vector)
    requires
        is_power_of_two(len),
        len != 1,
    ensures
        (x as u32) & (len - 1) as u32 == 2 * (((x / 2) as u32) & (len / 2 - 1) as u32) + x % 2,
{
}

proof fn lemma_mask_one(x: u64)
    by (bit_vector)
    ensures
        (x as u32) & (1u32 - 1) as u32 == 0,
{
}

/// Masking by one less than a power of two is taking the remainder.
pub proof fn lemma_mask_is_modulo(x: u64, len: u32)
    requires
        is_power_of_two(len),
    ensures
        (x as u32) & (len - 1) as u32 == x % (len as u64),
    decreases len,
{
    if len == 1 {
        lemma_mask_one(x);
    } else {
        lemma_half(len);
        lemma_mask_step(x, len);
        lemma_mask_is_modulo(x / 2, len / 2);
        let half: int = (len / 2) as int;
        let q: int = (x / 2) as int / half;
        let r: int = (x / 2) as int % half;
        assert(x as int == (2 * half) * q + (2 * r + x as int % 2)) by (nonlinear_arith)
            requires
                half > 0,
                q == (x / 2) as int / half,
                r == (x / 2) as int % half,
        ;
        vstd::arithmetic::div_mod::lemma_fundamental_div_mod_converse(
            x as int,
            2 * half,
            q,
            2 * r + x as int % 2,
        );
    }
}

/// A logical slot lies at three times its number, wrapped around at the end of the block.
pub proof fn law_scramble_is_modulo(slot: u32, len: u32)
    requires
        is_power_of_two(len),
    ensures
        scramble(slot, len) == (slot * 3) % (len as int),
{
    lemma_mask_is_modulo((slot * 3) as u64, len);
}

/// The slots of a block are permuted: no two logical slots lie at the same place, and there is a
/// logical slot at every place.
pub proof fn law_scramble_is_a_permutation(len: u32)
    requires
        is_power_of_two(len),
    ensures
        forall|a: u32| a < len ==> #[trigger] scramble(a, len) < len,
        forall|a: u32, b: u32|
            a < len && b < len && #[trigger] scramble(a, len) == #[trigger] scramble(b, len) ==> a
                == b,
        forall|index: u32|
            index < len ==> #[trigger] unscramble(index, len) < len && scramble(
                unscramble(index, len),
                len,
            ) == index,
{
    assert forall|a: u32| a < len implies #[trigger] scramble(a, len) < len by {
        lemma_scramble_bounded(a, len);
    }
    assert forall|a: u32, b: u32|
        a < len && b < len && #[trigger] scramble(a, len) == #[trigger] scramble(b, len) implies a
        == b by {
        lemma_scramble_injective(a, b, len);
    }
    assert forall|index: u32| index < len implies #[trigger] unscramble(index, len) < len
        && scramble(unscramble(index, len), len) == index by {
        lemma_scramble_bounded(index, len);
        lemma_scramble_surjective(index, len);
    }
}

/// Takes a logical slot of a block of `len` slots and returns a physical slot which has been mapped
/// pseudo-randomly to help with false sharing.
pub fn scramble_slot(slot: u32, len: u32) -> (index: u32)
    requires
        is_power_of_two(len),
    ensures
        index == scramble(slot, len),
        index < len,
{
    proof {
        lemma_scramble_bounded(slot, len);
    }
    // Multiplying by this factor and then taking it modulo the length is bijective if our
    // factor is coprime with our length. Since all block lengths are powers of two, 3 will
    // always be coprime with the length
    let unbounded: u64 = slot as u64 * 3;

    // Since len is a power of two, we can create a mask that truncates to the length by
    // removing one. This allows us to quickly perform a modulo
    unbounded as u32 & (len - 1)
}

proof fn lemma_unscramble(index: u32, len: u32)
    by (bit_vector)
    ensures
        (index as u64 * 0xaaaa_aaab) as u32 & (len - 1) as u32 == (index * 0xaaaa_aaab) as u32 & (
        len - 1) as u32,
{
}

/// Takes a physical slot of a block of `len` slots and returns the logical slot that was mapped to
/// it.
pub fn unscramble_slot(index: u32, len: u32) -> (slot: u32)
    requires
        is_power_of_two(len),
        index < len,
    ensures
        slot == unscramble(index, len),
        scramble(slot, len) == index,
        slot < len,
{
    proof {
        lemma_scramble_bounded(index, len);
        lemma_scramble_surjective(index, len);
        lemma_unscramble(index, len);
    }
    // This factor is the inverse of 3 modulo 2 to the power of 32, and so modulo all lower powers
    let unbounded: u64 = index as u64 * 0xaaaa_aaab;

    unbounded as u32 & (len - 1)
}

proof fn lemma_is_power_of_two(n: u32)
    by (bit_vector)
    ensures
        n > 1 ==> (is_power_of_two(n) <==> n % 2 == 0 && is_power_of_two(n / 2)),
        is_power_of_two(1),
        !is_power_of_two(0),
{
}

/// The powers of two are one and the doubles of powers of two.
pub proof fn law_powers_of_two_are_doubles(n: u32)
    ensures
        is_power_of_two(n) <==> n == 1 || (n > 1 && n % 2 == 0 && is_power_of_two(n / 2)),
{
    lemma_is_power_of_two(n);
}

} // verus!
