//! Bit fields of 32-bit instruction words.

use vstd::prelude::*;
use vstd::arithmetic::power2::{pow2, lemma2_to64};
use vstd::bits::{
    lemma_u32_shl_is_mul,
    lemma_u32_pow2_no_overflow,
    lemma_u32_shr_is_div,
    lemma_u32_low_bits_mask_is_mod,
    low_bits_mask,
};

verus! {

/// The value held by the `width` bits of `word` that begin at bit `lsb`.
pub open spec fn field_value(word: u32, width: nat, lsb: nat) -> nat {
    (word as nat / pow2(lsb)) % pow2(width)
}

/// A bit field of an instruction word: `width` bits beginning at the
/// least-significant bit `lsb`.
#[derive(Clone, Copy, Debug)]
pub struct Field {
    pub width: u32,
    pub lsb: u32,
}

impl Field {
    pub open spec fn wf(&self) -> bool {
        self.width < 32 && self.lsb < 32
    }

    /// Register A of an ordinary instruction.
    pub fn ra() -> (r: Field)
        ensures
            r.width == 3 && r.lsb == 6,
    {
        Field { width: 3, lsb: 6 }
    }

    /// Register B of an ordinary instruction.
    pub fn rb() -> (r: Field)
        ensures
            r.width == 3 && r.lsb == 3,
    {
        Field { width: 3, lsb: 3 }
    }

    /// Register C of an ordinary instruction.
    pub fn rc() -> (r: Field)
        ensures
            r.width == 3 && r.lsb == 0,
    {
        Field { width: 3, lsb: 0 }
    }

    /// Register A of a Load Value instruction.
    pub fn rl() -> (r: Field)
        ensures
            r.width == 3 && r.lsb == 25,
    {
        Field { width: 3, lsb: 25 }
    }

    /// The immediate of a Load Value instruction.
    pub fn vl() -> (r: Field)
        ensures
            r.width == 25 && r.lsb == 0,
    {
        Field { width: 25, lsb: 0 }
    }

    /// The opcode.
    pub fn opcode() -> (r: Field)
        ensures
            r.width == 4 && r.lsb == 28,
    {
        Field { width: 4, lsb: 28 }
    }
}

/// A mask of `bits` one bits.
fn mask(bits: u32) -> (r: u32)
    requires
        bits < 32,
    ensures
        r == low_bits_mask(bits as nat),
        r as nat == pow2(bits as nat) - 1,
{
    proof {
        lemma_u32_pow2_no_overflow(bits as nat);
        lemma_u32_shl_is_mul(1, bits);
    }
    (1u32 << bits) - 1
}

/// Extracts `field` from `instruction`.
pub fn get(field: &Field, instruction: u32) -> (r: u32)
    requires
        field.wf(),
    ensures
        r as nat == field_value(instruction, field.width as nat, field.lsb as nat),
{
    let m = mask(field.width);
    proof {
        lemma_u32_shr_is_div(instruction, field.lsb);
        lemma_u32_low_bits_mask_is_mod(instruction >> field.lsb, field.width as nat);
        lemma_u32_pow2_no_overflow(field.width as nat);
    }
    (instruction >> field.lsb) & m
}

/// The opcode of `instruction`: its top four bits.
pub fn op(instruction: u32) -> (r: u32)
    ensures
        r as nat == field_value(instruction, 4, 28),
        r < 16,
{
    proof {
        lemma2_to64();
    }
    get(&Field::opcode(), instruction)
}

} // verus!
