//! Single-bit access on 64-bit words.

use bit_field::BitField;
use vstd::prelude::*;

verus! {

/// Whether bit number `bit` of `value` is 1, bit 0 being the least significant.
pub open spec fn bit_is_set(value: u64, bit: u64) -> bool {
    value & (1u64 << bit) != 0
}

/// `value` with bit number `bit` forced to `on` and every other bit kept.
pub open spec fn with_bit(value: u64, bit: u64, on: bool) -> u64 {
    if on {
        value | (1u64 << bit)
    } else {
        value & !(1u64 << bit)
    }
}

/// Calls `bit_field::BitField::get_bit` on a `u64`. The contract is not
/// proved: it restates the method's body, which tests `value & (1 << bit)`
/// against zero and panics for a bit index of 64 or more.
#[verifier::external_body]
pub(crate) fn get_bit(value: u64, bit: usize) -> (set: bool)
    requires
        bit < 64,
    ensures
        set == bit_is_set(value, bit as u64),
{
    value.get_bit(bit)
}

/// Calls `bit_field::BitField::set_bit` on a copy of a `u64` and returns the
/// copy. The contract is not proved: it restates the method's body, which ors
/// `1 << bit` into the word or masks it out, and panics for a bit index of 64
/// or more.
#[verifier::external_body]
pub(crate) fn set_bit(value: u64, bit: usize, on: bool) -> (word: u64)
    requires
        bit < 64,
    ensures
        word == with_bit(value, bit as u64, on),
{
    let mut word = value;
    word.set_bit(bit, on);
    word
}

} // verus!
