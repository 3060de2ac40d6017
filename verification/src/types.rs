//! The bundles of wires that the adders and the logic unit take and give.
//! Rows of gates are most significant bit first.

use crate::gates::GateRef;
use vstd::prelude::*;

verus! {

/// Two operand bits.
pub struct GeneralSingleInputs {
    pub state1: GateRef,
    pub state2: GateRef,
}

/// Two operand bits and the carry into their position.
pub struct GeneralSingleCarryInputs {
    pub state1: GateRef,
    pub state2: GateRef,
    pub carry_in: GateRef,
}

/// A sum bit and the carry out of its position.
pub struct GeneralSingleCarryOutputs {
    pub out_sum: GateRef,
    pub carry_out: GateRef,
}

/// Two four-bit operands and the carry into the lowest position.
pub struct General4BitCarryInputs<'a> {
    pub inp1: &'a [GateRef; 4],
    pub inp2: &'a [GateRef; 4],
    pub carry_in: GateRef,
}

/// Two eight-bit operands.
pub struct General8BitInputs<'a> {
    pub num1: &'a [GateRef; 8],
    pub num2: &'a [GateRef; 8],
}

/// An eight-bit sum and the carry out of its highest position.
pub struct General8BitCarryOutputs {
    pub out_sum: [GateRef; 8],
    pub carry_out: GateRef,
}

/// What a carry-lookahead unit takes: the propagate and generate signals
/// of four positions, least significant first, and the carry coming in.
pub struct CarryLookaheadUnitInputs<'a> {
    pub props: &'a [GateRef; 4],
    pub gens: &'a [GateRef; 4],
    pub carry_in: GateRef,
}

/// What a carry-lookahead unit gives: the carries out of the three low
/// positions, least significant first, and the propagate and generate
/// signals of the group as a whole.
pub struct CarryLookaheadUnitGPOutputs {
    pub carry_outs: [GateRef; 3],
    pub propagate: GateRef,
    pub generate: GateRef,
}

/// Two four-bit operands and the carry into the lowest position.
pub struct Adder4BitInputs<'a> {
    pub num1: &'a [GateRef; 4],
    pub num2: &'a [GateRef; 4],
    pub carry_in: GateRef,
}

/// A four-bit sum with the propagate and generate signals of the group.
pub struct Adder4BitGPOutputs {
    pub sum: [GateRef; 4],
    pub propagate: GateRef,
    pub generate: GateRef,
}

/// The wires of one bit slice of the logic unit: the operand bits, the
/// line that lets the first operand in, the line that complements the
/// second, the two lines that select the operation, and the carry coming in.
pub struct AluGateInputs {
    pub state1: GateRef,
    pub state2: GateRef,
    pub enable1: GateRef,
    pub invert2: GateRef,
    pub opcode2: GateRef,
    pub opcode1: GateRef,
    pub c_in: GateRef,
}

/// One result bit with its propagate and generate signals.
pub struct GPSingleOutputs {
    pub out: GateRef,
    pub propagate: GateRef,
    pub generate: GateRef,
}

/// Three result bits with the propagate and generate signals of the
/// group.
pub struct GP3BitOutputs {
    pub out: [GateRef; 3],
    pub propagate: GateRef,
    pub generate: GateRef,
}

/// Four result bits with the propagate and generate signals of the group.
pub struct GP4BitOutputs {
    pub out: [GateRef; 4],
    pub propagate: GateRef,
    pub generate: GateRef,
}

/// What the four-bit logic unit gives: the result bits and the carry out.
pub struct Alu4BitOutputs {
    pub out: [GateRef; 4],
    pub carry_out: GateRef,
}

} // verus!
