//! An eight-bit unsigned integer held as a row of gates.

use crate::bits::{levels, number, read_number};
use crate::gates::{constant, is_fixed, GateRef};
use vstd::prelude::*;

verus! {

/// Eight gates, most significant bit first.
pub struct UnsignedInteger8 {
    pub value: [GateRef; 8],
}

impl UnsignedInteger8 {
    pub fn new(value: [GateRef; 8]) -> (out: Self)
        ensures
            out.value == value,
    {
        Self { value }
    }

    /// The integer whose every bit is an input held high.
    pub fn new_empty() -> (out: Self)
        ensures
            forall|i: int| 0 <= i < 8 ==> is_fixed(#[trigger] out.value[i], true),
    {
        Self {
            value: [
                constant(true),
                constant(true),
                constant(true),
                constant(true),
                constant(true),
                constant(true),
                constant(true),
                constant(true),
            ],
        }
    }

    /// The integer whose bits are inputs fixed at the levels of `value`.
    pub fn from_bits(value: [bool; 8]) -> (out: Self)
        ensures
            forall|i: int| 0 <= i < 8 ==> is_fixed(#[trigger] out.value[i], value[i]),
            forall|cells: Seq<bool>| #[trigger] levels(out.value@, cells) == value@,
    {
        let out = Self {
            value: [
                constant(value[0]),
                constant(value[1]),
                constant(value[2]),
                constant(value[3]),
                constant(value[4]),
                constant(value[5]),
                constant(value[6]),
                constant(value[7]),
            ],
        };
        proof {
            assert forall|cells: Seq<bool>| #[trigger] levels(out.value@, cells) == value@ by {
                assert(levels(out.value@, cells) =~= value@);
            }
        }
        out
    }

    /// Puts `val` at index `pos`, counted from the most
    /// significant bit.
    pub fn set(&mut self, val: GateRef, pos: usize)
        requires
            pos < 8,
        ensures
            final(self).value@ == old(self).value@.update(pos as int, val),
    {
        self.value[pos] = val;
    }

    /// The number that the eight gates hold under the current levels of
    /// `cells`.
    pub fn to_dec(&self, cells: &Vec<bool>) -> (out: u8)
        ensures
            out == number(levels(self.value@, cells@)),
    {
        read_number(self.value.as_slice(), cells)
    }
}

} // verus!
