//! The layout of a block that is allocated as one piece: a header, followed by an array of slots.

use vstd::arithmetic::div_mod;
use vstd::prelude::*;

verus! {

/// The lowest multiple of `multiple` that is not less than `number`.
pub open spec fn round_up(number: nat, multiple: nat) -> nat {
    if number % multiple == 0 {
        number
    } else {
        (number + multiple - number % multiple) as nat
    }
}

/// Rounding up gives a multiple, and no multiple in between is skipped.
pub proof fn law_round_up(number: nat, multiple: nat, other: nat)
    requires
        multiple > 0,
    ensures
        round_up(number, multiple) % multiple == 0,
        number <= round_up(number, multiple) < number + multiple,
        number <= other && other % multiple == 0 ==> round_up(number, multiple) <= other,
{
    let m = multiple as int;
    div_mod::lemma_fundamental_div_mod(number as int, m);
    let quotient = number as int / m;
    if number % multiple != 0 {
        assert(round_up(number, multiple) == m * (quotient + 1)) by (nonlinear_arith)
            requires
                number == m * quotient + number as int % m,
                round_up(number, multiple) == number + m - number as int % m,
        ;
        div_mod::lemma_mod_multiples_basic(quotient + 1, m);
        assert(m * (quotient + 1) == (quotient + 1) * m) by (nonlinear_arith);
        if number <= other && other % multiple == 0 {
            div_mod::lemma_fundamental_div_mod(other as int, m);
            let other_quotient = other as int / m;
            assert(other_quotient >= quotient + 1) by (nonlinear_arith)
                requires
                    m > 0,
                    other == m * other_quotient,
                    number == m * quotient + number as int % m,
                    number as int % m > 0,
                    number <= other,
            ;
            assert(m * (quotient + 1) <= m * other_quotient) by (nonlinear_arith)
                requires
                    m > 0,
                    other_quotient >= quotient + 1,
            ;
        }
    }
}

pub open spec fn larger(a: usize, b: usize) -> usize {
    if a >= b {
        a
    } else {
        b
    }
}

/// The number of bytes from the start of a block to the start of the next one that is aligned like
/// it.
pub open spec fn spec_size(
    header_size: usize,
    header_align: usize,
    slot_size: usize,
    slots_align: usize,
    len: u32,
) -> nat {
    let slots_offset = round_up(header_size as nat, slots_align as nat);
    round_up(
        (slots_offset + slot_size * len) as nat,
        larger(header_align, slots_align) as nat,
    )
}

/// Where the parts of a block are, in bytes from its start, and what its allocation has to be like.
#[derive(Debug, Copy, Clone, Eq, PartialEq, Hash, Structural)]
pub struct BlockLayout {
    pub slots_offset: usize,
    pub slot_size: usize,
    pub size: usize,
    pub align: usize,
}

impl BlockLayout {
    pub fn next_multiple_of(number: usize, multiple: usize) -> (next: usize)
        requires
            multiple > 0,
            round_up(number as nat, multiple as nat) <= usize::MAX,
        ensures
            next == round_up(number as nat, multiple as nat),
    {
        if number % multiple == 0 {
            number
        } else {
            let excess = number % multiple;
            let padding = multiple - excess;
            number + padding
        }
    }

    /// Lays out a block of `len` slots, given the sizes and the alignments of its header and of a
    /// slot.
    pub fn new(
        header_size: usize,
        header_align: usize,
        slot_size: usize,
        slots_align: usize,
        len: u32,
    ) -> (layout: Self)
        requires
            header_align > 0,
            slots_align > 0,
            spec_size(header_size, header_align, slot_size, slots_align, len) <= usize::MAX,
        ensures
            layout.slots_offset == round_up(header_size as nat, slots_align as nat),
            layout.slot_size == slot_size,
            layout.align == larger(header_align, slots_align),
            layout.size == spec_size(header_size, header_align, slot_size, slots_align, len),
            header_size <= layout.slots_offset < header_size + slots_align,
            layout.slots_offset % slots_align == 0,
            layout.align >= header_align && layout.align >= slots_align,
            layout.align == header_align || layout.align == slots_align,
            layout.slots_offset + slot_size * len <= layout.size < layout.slots_offset + slot_size
                * len + layout.align,
            layout.size % layout.align == 0,
    {
        proof {
            assert(0 <= slot_size * len) by (nonlinear_arith);
            let slots_offset = round_up(header_size as nat, slots_align as nat);
            law_round_up(header_size as nat, slots_align as nat, 0);
            law_round_up(
                (slots_offset + slot_size * len) as nat,
                larger(header_align, slots_align) as nat,
                0,
            );
        }
        let slots_size = slot_size * len as usize;
        let slots_offset = Self::next_multiple_of(header_size, slots_align);

        let align = if header_align >= slots_align {
            header_align
        } else {
            slots_align
        };
        let size = Self::next_multiple_of(slots_offset + slots_size, align);

        Self { slots_offset, slot_size, size, align }
    }

    /// The slots of a block do not overlap with each other or with its header, lie within the block
    /// and are aligned if the block is. `slots_align` and the alignment of the header are powers of
    /// two, so the lower one divides the other.
    pub proof fn law_slots_are_apart(
        self,
        header_size: usize,
        header_align: usize,
        slots_align: usize,
        len: u32,
        start: nat,
        i: nat,
        j: nat,
    )
        requires
            header_align > 0,
            slots_align > 0,
            header_align % slots_align == 0 || slots_align % header_align == 0,
            self.slot_size % slots_align == 0,
            self.slots_offset == round_up(header_size as nat, slots_align as nat),
            self.align == larger(header_align, slots_align),
            self.size == spec_size(header_size, header_align, self.slot_size, slots_align, len),
            start % self.align as nat == 0,
            i < j < len,
        ensures
            header_size <= self.slots_offset,
            self.slots_offset + i * self.slot_size + self.slot_size <= self.slots_offset + j
                * self.slot_size,
            self.slots_offset + j * self.slot_size + self.slot_size <= self.size,
            self.size % self.align == 0,
            (start + self.slots_offset + j * self.slot_size) as nat % slots_align as nat == 0,
    {
        let slot_size = self.slot_size as int;
        law_round_up(header_size as nat, slots_align as nat, 0);
        law_round_up((self.slots_offset + slot_size * len) as nat, self.align as nat, 0);
        assert(i * slot_size + slot_size <= j * slot_size) by (nonlinear_arith)
            requires
                i + 1 <= j,
                slot_size >= 0,
        ;
        assert(j * slot_size + slot_size <= slot_size * len) by (nonlinear_arith)
            requires
                j + 1 <= len,
                slot_size >= 0,
        ;
        let a = slots_align as int;
        div_mod::lemma_fundamental_div_mod(slot_size, a);
        div_mod::lemma_fundamental_div_mod(self.slots_offset as int, a);
        div_mod::lemma_fundamental_div_mod(start as int, self.align as int);
        let n = slot_size / a;
        let o = self.slots_offset as int / a;
        let s = start as int / self.align as int;
        if header_align >= slots_align {
            if header_align % slots_align != 0 {
                div_mod::lemma_fundamental_div_mod(slots_align as int, header_align as int);
                assert(slots_align as int / header_align as int <= 0) by (nonlinear_arith)
                    requires
                        header_align > slots_align,
                ;
                assert(false) by (nonlinear_arith)
                    requires
                        slots_align == header_align * (slots_align as int / header_align as int),
                        slots_align as int / header_align as int <= 0,
                        header_align > 0,
                        slots_align > 0,
                ;
            }
            div_mod::lemma_fundamental_div_mod(header_align as int, a);
        }
        let k = self.align as int / a;
        assert(self.align == a * k) by {
            div_mod::lemma_fundamental_div_mod(self.align as int, a);
        }
        let total = start + self.slots_offset + j * slot_size;
        assert(total == (k * s + o + j * n) * a) by (nonlinear_arith)
            requires
                total == start + self.slots_offset + j * slot_size,
                start == self.align * s,
                self.align == a * k,
                self.slots_offset == a * o,
                slot_size == a * n,
        ;
        div_mod::lemma_mod_multiples_basic(k * s + o + j * n, a);
    }
}

} // verus!
