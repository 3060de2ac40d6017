//! The adders on plain handles and on eight-bit integers, for callers that
//! do not want to fill in a bundle of wires.

use crate::adders::carry_lookahead::{
    adder_4bit_cl as lookahead_adder, generate_bits, generated, is_lookahead_adder,
    lookahead_sum, propagate_bits, propagates,
};
use crate::adders::ripple_carry::{
    adder_8bit_rc as ripple_adder_8bit, full_adder_rc, full_carry, full_sum, half_adder,
    is_full_adder, is_ripple_adder_from_low, ripple_carry, ripple_sum,
};
use crate::bits::{bit, levels, number};
use crate::gates::{and, or, share, Gate, GateRef};
use crate::objects::UnsignedInteger8;
use crate::types::{
    Adder4BitInputs, General8BitInputs, GeneralSingleCarryInputs, GeneralSingleInputs,
};
use std::rc::Rc;
use vstd::prelude::*;

verus! {

/// What an adder gave, tagged with the kind of adder.
pub enum Ops {
    /// The sum and the carry of a half adder.
    HalfAdder(Rc<Gate>, Rc<Gate>),
    /// The sum and the carry of a full adder.
    FullAdder(Rc<Gate>, Rc<Gate>),
    /// The sum and the carry of an eight-bit adder.
    Adder8Bit(Rc<UnsignedInteger8>, Rc<Gate>),
}

impl Ops {
    pub fn half_adder(state1: &Rc<Gate>, state2: &Rc<Gate>) -> (ops: Ops)
        ensures
            ops matches Ops::HalfAdder(sum, carry) && sum.is_xor_of(*state1, *state2)
                && carry.is_and_of(seq![*state1, *state2]) && forall|cells: Seq<bool>|
                #![trigger sum.value(cells)]
                #![trigger carry.value(cells)]
                sum.value(cells) == (state1.value(cells) != state2.value(cells)) && carry.value(
                    cells,
                ) == (state1.value(cells) && state2.value(cells)),
    {
        let out = half_adder(
            GeneralSingleInputs { state1: share(state1), state2: share(state2) },
        );
        Ops::HalfAdder(out.out_sum, out.carry_out)
    }

    pub fn full_adder(state1: &Rc<Gate>, state2: &Rc<Gate>, carry: &Rc<Gate>) -> (ops: Ops)
        ensures
            ops matches Ops::FullAdder(sum, carry_out) && is_full_adder(
                sum,
                carry_out,
                *state1,
                *state2,
                *carry,
            ) && forall|cells: Seq<bool>|
                #![trigger sum.value(cells)]
                #![trigger carry_out.value(cells)]
                sum.value(cells) == full_sum(
                    state1.value(cells),
                    state2.value(cells),
                    carry.value(cells),
                ) && carry_out.value(cells) == full_carry(
                    state1.value(cells),
                    state2.value(cells),
                    carry.value(cells),
                ),
    {
        let out = full_adder_rc(
            GeneralSingleCarryInputs {
                state1: share(state1),
                state2: share(state2),
                carry_in: share(carry),
            },
        );
        Ops::FullAdder(out.out_sum, out.carry_out)
    }

    pub fn adder_8bit(num1: &Rc<UnsignedInteger8>, num2: &Rc<UnsignedInteger8>) -> (ops: Ops)
        ensures
            ops matches Ops::Adder8Bit(sum, carry) && is_ripple_adder_from_low(
                sum.value@,
                carry,
                num1.value@,
                num2.value@,
            ) && forall|cells: Seq<bool>|
                #![trigger levels(sum.value@, cells)]
                #![trigger carry.value(cells)]
                levels(sum.value@, cells) == ripple_sum(
                    levels(num1.value@, cells),
                    levels(num2.value@, cells),
                    false,
                ) && carry.value(cells) == ripple_carry(
                    levels(num1.value@, cells),
                    levels(num2.value@, cells),
                    false,
                    8,
                ) && number(levels(sum.value@, cells)) + 256 * bit(carry.value(cells)) == number(
                    levels(num1.value@, cells),
                ) + number(levels(num2.value@, cells)),
    {
        let (sum, carry) = adder_8bit_rc(num1, num2);
        Ops::Adder8Bit(sum, carry)
    }
}

/// An eight-bit ripple-carry adder on integers, with nothing carried in.
pub fn adder_8bit_rc(num1: &Rc<UnsignedInteger8>, num2: &Rc<UnsignedInteger8>) -> (out: (
    Rc<UnsignedInteger8>,
    Rc<Gate>,
))
    ensures
        is_ripple_adder_from_low(out.0.value@, out.1, num1.value@, num2.value@),
        forall|cells: Seq<bool>| #[trigger]
            levels(out.0.value@, cells) == ripple_sum(
                levels(num1.value@, cells),
                levels(num2.value@, cells),
                false,
            ),
        forall|cells: Seq<bool>| #[trigger]
            out.1.value(cells) == ripple_carry(
                levels(num1.value@, cells),
                levels(num2.value@, cells),
                false,
                8,
            ),
        forall|cells: Seq<bool>|
            number(#[trigger] levels(out.0.value@, cells)) + 256 * bit(out.1.value(cells))
                == number(levels(num1.value@, cells)) + number(levels(num2.value@, cells)),
{
    let out = ripple_adder_8bit(General8BitInputs { num1: &num1.value, num2: &num2.value });
    (Rc::new(UnsignedInteger8::new(out.out_sum)), out.carry_out)
}

/// A four-bit carry-lookahead adder that gives the sum bits with the
/// propagate and generate signals of the group, in that order.
pub fn adder_4bit_clgp(num1: [GateRef; 4], num2: [GateRef; 4], carry_in: GateRef) -> (out: (
    [GateRef; 4],
    GateRef,
    GateRef,
))
    ensures
        is_lookahead_adder(out.0@, out.1, out.2, num1@, num2@, carry_in),
        forall|cells: Seq<bool>| #[trigger]
            levels(out.0@, cells) == lookahead_sum(
                levels(num1@, cells),
                levels(num2@, cells),
                carry_in.value(cells),
            ),
        forall|cells: Seq<bool>| #[trigger]
            out.1.value(cells) == propagates(
                propagate_bits(levels(num1@, cells), levels(num2@, cells)),
                0,
                4,
            ),
        forall|cells: Seq<bool>| #[trigger]
            out.2.value(cells) == generated(
                propagate_bits(levels(num1@, cells), levels(num2@, cells)),
                generate_bits(levels(num1@, cells), levels(num2@, cells)),
                3,
            ),
        forall|cells: Seq<bool>|
            number(#[trigger] levels(out.0@, cells)) == (number(levels(num1@, cells)) + number(
                levels(num2@, cells),
            ) + bit(carry_in.value(cells))) % 16,
        forall|cells: Seq<bool>|
            #![trigger out.2.value(cells)]
            (out.2.value(cells) || (out.1.value(cells) && carry_in.value(cells))) == (
            number(levels(num1@, cells)) + number(levels(num2@, cells)) + bit(
                carry_in.value(cells),
            ) >= 16),
{
    let out = lookahead_adder(Adder4BitInputs { num1: &num1, num2: &num2, carry_in });
    (out.sum, out.propagate, out.generate)
}

/// A four-bit carry-lookahead adder that gives the sum bits and the carry
/// out of the group, `or(generate, and(propagate, carry))`.
pub fn adder_4bit_cl(num1: [GateRef; 4], num2: [GateRef; 4], carry: GateRef) -> (out: (
    [GateRef; 4],
    GateRef,
))
    ensures
        ({
            let generate = out.1.operands()[0];
            let through = out.1.operands()[1];
            let propagate = through.operands()[0];
            &&& is_lookahead_adder(out.0@, propagate, generate, num1@, num2@, carry)
            &&& out.1.is_or_of(seq![generate, through])
            &&& through.is_and_of(seq![propagate, carry])
        }),
        forall|cells: Seq<bool>| #[trigger]
            levels(out.0@, cells) == lookahead_sum(
                levels(num1@, cells),
                levels(num2@, cells),
                carry.value(cells),
            ),
        forall|cells: Seq<bool>|
            number(#[trigger] levels(out.0@, cells)) == (number(levels(num1@, cells)) + number(
                levels(num2@, cells),
            ) + bit(carry.value(cells))) % 16,
        forall|cells: Seq<bool>| #[trigger]
            out.1.value(cells) == (number(levels(num1@, cells)) + number(levels(num2@, cells))
                + bit(carry.value(cells)) >= 16),
{
    let (sum, propagate, generate) = adder_4bit_clgp(num1, num2, share(&carry));
    let through = and(share(&propagate), share(&carry));
    let carry_out = or(share(&generate), through);
    proof {
        assert forall|cells: Seq<bool>| #[trigger]
            carry_out.value(cells) == (number(levels(num1@, cells)) + number(levels(num2@, cells))
                + bit(carry.value(cells)) >= 16) by {
            let g = generate.value(cells);
            let p = propagate.value(cells);
            let c = carry.value(cells);
            let total = number(levels(num1@, cells)) + number(levels(num2@, cells)) + bit(c);
            assert(through.value(cells) == (p && c));
            assert((g || (p && c)) == (total >= 16));
            assert(carry_out.value(cells) == (g || through.value(cells)));
        }
    }
    (sum, carry_out)
}

} // verus!
