//! The arithmetic logic unit.
//!
//! One cell serves one bit position. Two control lines prepare its operand
//! bits: `enable1` lets the first operand in, `invert2` complements the
//! second. Two more, `opcode1` and `opcode2`, select what the cell makes of
//! them. With `opcode1` high and `opcode2` low the cell is a full adder
//! position: its propagate signal is the exclusive or of the prepared bits
//! and its generate signal their conjunction.

use crate::adders::carry_lookahead::{
    carry_lookahead_unit, generate_bits, is_carry, is_group_generate, lemma_lookahead_adds,
    lookahead_carry, lookahead_into, lookahead_sum, propagate_bits,
};
use crate::adders::ripple_carry::low_bit;
use crate::bits::{bit, lemma_number_four, levels, number};
use crate::gates::{
    and, constant, empty_and, empty_or, is_fixed, nand, not, or, share, xor, Gate, GateRef,
};
use crate::types::{
    Alu4BitOutputs, AluGateInputs, CarryLookaheadUnitInputs, GPSingleOutputs,
    General4BitCarryInputs,
};
use std::rc::Rc;
use vstd::arithmetic::power2::lemma2_to64;
use vstd::prelude::*;

verus! {

/// The first operand bit as the cell takes it in: low unless the operand is
/// enabled and its bit is high. The cell works on the complement of this.
pub open spec fn gated_a(a: bool, enable_a: bool) -> bool {
    enable_a && a
}

/// The second operand bit as the cell takes it in: the bit, or its
/// complement when `invert_b` is high. The cell works on the complement of
/// this.
pub open spec fn gated_b(b: bool, invert_b: bool) -> bool {
    invert_b != b
}

/// The generate signal of a cell.
pub open spec fn cell_generate(a: bool, b: bool, enable_a: bool, invert_b: bool, x2: bool) -> bool {
    !(!gated_a(a, enable_a) || x2 || !gated_b(b, invert_b))
}

/// The propagate signal of a cell.
pub open spec fn cell_propagate(
    a: bool,
    b: bool,
    enable_a: bool,
    invert_b: bool,
    x1: bool,
    x2: bool,
) -> bool {
    !((!gated_a(a, enable_a) && x1 && !gated_b(b, invert_b)) || cell_generate(
        a,
        b,
        enable_a,
        invert_b,
        x2,
    ))
}

/// Whether `propagate` and `generate` are wired as the signals of a cell:
/// with `ga = nand(enable1, state1)` and `gb = not(xor(invert2, state2))`,
/// the generate signal is `not(or(ga, opcode2, gb))` and the propagate
/// signal is `not(or(and(ga, opcode1, gb), generate))`.
pub open spec fn is_cell_signals(
    propagate: Rc<Gate>,
    generate: Rc<Gate>,
    inps: AluGateInputs,
) -> bool {
    let nor = generate->Not_0;
    let ga = nor.operands()[0];
    let gb = nor.operands()[2];
    let either = propagate->Not_0;
    &&& *generate is Not
    &&& nor.is_or_of(seq![ga, inps.opcode2, gb])
    &&& ga.is_nand_of(inps.enable1, inps.state1)
    &&& *gb is Not
    &&& gb->Not_0.is_xor_of(inps.invert2, inps.state2)
    &&& *propagate is Not
    &&& *either is Or
    &&& either.operands().len() == 2
    &&& either.operands()[0].is_and_of(seq![ga, inps.opcode1, gb])
    &&& either.operands()[1] == generate
}

/// The propagate and generate signals of one cell; the carry line of
/// `inps` plays no part in them.
pub fn cell_signals(inps: AluGateInputs) -> (out: (GateRef, GateRef))
    ensures
        is_cell_signals(out.0, out.1, inps),
        forall|cells: Seq<bool>| #[trigger]
            out.0.value(cells) == cell_propagate(
                inps.state1.value(cells),
                inps.state2.value(cells),
                inps.enable1.value(cells),
                inps.invert2.value(cells),
                inps.opcode1.value(cells),
                inps.opcode2.value(cells),
            ),
        forall|cells: Seq<bool>| #[trigger]
            out.1.value(cells) == cell_generate(
                inps.state1.value(cells),
                inps.state2.value(cells),
                inps.enable1.value(cells),
                inps.invert2.value(cells),
                inps.opcode2.value(cells),
            ),
{
    let AluGateInputs { state1, state2, enable1, invert2, opcode1, opcode2, c_in: _ } = inps;
    let out_nand = nand(enable1, state1);
    let out_xor = xor(invert2, state2);
    let out_xnor = not(share(&out_xor));

    let and_gate = empty_and().apply(share(&out_nand)).apply(opcode1).apply(share(&out_xnor));
    let out_and = Rc::new(and_gate);

    let or_gate = empty_or().apply(share(&out_nand)).apply(opcode2).apply(share(&out_xnor));
    let inner_nor1 = Rc::new(or_gate);
    let out_nor1 = not(share(&inner_nor1));

    let or_gate = empty_or().apply(share(&out_and)).apply(share(&out_nor1));
    let inner_nor2 = Rc::new(or_gate);
    let out_nor2 = not(share(&inner_nor2));

    proof {
        assert(inner_nor1.operands() =~= seq![out_nand, opcode2, out_xnor]);
        assert(out_and.operands() =~= seq![out_nand, opcode1, out_xnor]);
        assert(inner_nor2.operands() =~= seq![out_and, out_nor1]);
        assert forall|cells: Seq<bool>| #[trigger]
            out_nor1.value(cells) == cell_generate(
                state1.value(cells),
                state2.value(cells),
                enable1.value(cells),
                invert2.value(cells),
                opcode2.value(cells),
            ) by {
            assert(out_xnor.value(cells) == !out_xor.value(cells));
            assert(out_nor1.value(cells) == !inner_nor1.value(cells));
        }
        assert forall|cells: Seq<bool>| #[trigger]
            out_nor2.value(cells) == cell_propagate(
                state1.value(cells),
                state2.value(cells),
                enable1.value(cells),
                invert2.value(cells),
                opcode1.value(cells),
                opcode2.value(cells),
            ) by {
            assert(out_xnor.value(cells) == !out_xor.value(cells));
            assert(out_nor1.value(cells) == !inner_nor1.value(cells));
            assert(out_nor2.value(cells) == !inner_nor2.value(cells));
        }
    }
    (out_nor2, out_nor1)
}

/// One cell of the logic unit: the result bit of its position, which is
/// the exclusive or of the carry coming in and the propagate signal, with
/// the propagate and generate signals for a lookahead unit.
pub fn general_gate_alu(inps: AluGateInputs) -> (out: GPSingleOutputs)
    ensures
        is_cell_signals(out.propagate, out.generate, inps),
        out.out.is_xor_of(inps.c_in, out.propagate),
        forall|cells: Seq<bool>| #[trigger]
            out.out.value(cells) == (inps.c_in.value(cells) != cell_propagate(
                inps.state1.value(cells),
                inps.state2.value(cells),
                inps.enable1.value(cells),
                inps.invert2.value(cells),
                inps.opcode1.value(cells),
                inps.opcode2.value(cells),
            )),
        forall|cells: Seq<bool>| #[trigger]
            out.propagate.value(cells) == cell_propagate(
                inps.state1.value(cells),
                inps.state2.value(cells),
                inps.enable1.value(cells),
                inps.invert2.value(cells),
                inps.opcode1.value(cells),
                inps.opcode2.value(cells),
            ),
        forall|cells: Seq<bool>| #[trigger]
            out.generate.value(cells) == cell_generate(
                inps.state1.value(cells),
                inps.state2.value(cells),
                inps.enable1.value(cells),
                inps.invert2.value(cells),
                inps.opcode2.value(cells),
            ),
{
    let c_in = share(&inps.c_in);
    let (propagate, generate) = cell_signals(inps);
    let out = xor(c_in, share(&propagate));
    proof {
        assert forall|cells: Seq<bool>| #[trigger]
            out.value(cells) == (inps.c_in.value(cells) != cell_propagate(
                inps.state1.value(cells),
                inps.state2.value(cells),
                inps.enable1.value(cells),
                inps.invert2.value(cells),
                inps.opcode1.value(cells),
                inps.opcode2.value(cells),
            )) by {
            assert(propagate.value(cells) == cell_propagate(
                inps.state1.value(cells),
                inps.state2.value(cells),
                inps.enable1.value(cells),
                inps.invert2.value(cells),
                inps.opcode1.value(cells),
                inps.opcode2.value(cells),
            ));
        }
    }
    GPSingleOutputs { out, propagate, generate }
}

/// The sixteen operations of the logic unit, in the order of their codes.
#[derive(Clone, Copy, Debug, PartialEq, Eq, Structural)]
pub enum Opcode {
    /// `0000`: `a + b`.
    Add,
    /// `0001`: `a + b + carry`.
    Adc,
    /// `0010`: `a - b`.
    Sub,
    /// `0011`: `a - b`, less one when no carry comes in.
    Sbb,
    /// `0100`: the complement of `b`.
    Onc,
    /// `0101`: the two's complement of `b`.
    Twc,
    /// `0110`: `a and b`, bit by bit.
    And,
    /// `0111`: `a or b`, bit by bit.
    Or,
    /// `1000`: `a xor b`, bit by bit.
    Xor,
    /// `1001`: `b` shifted left by one.
    Lsl,
    /// `1010`: `b` shifted right by one, a low bit coming in.
    Lsr,
    /// `1011`: `b` shifted right by one, the sign bit staying.
    Asr,
    /// `1100`: `b` rotated left by one.
    Rol,
    /// `1101`: `b` rotated right by one.
    Ror,
    /// `1110`: `b` rotated left by one through the carry.
    Rcl,
    /// `1111`: `b` rotated right by one through the carry.
    Rcr,
}

/// What feeds the carry input of the unit.
#[derive(Clone, Copy, Debug, PartialEq, Eq, Structural)]
pub enum Carry {
    /// A fixed low level.
    Low,
    /// A fixed high level.
    High,
    /// The carry line of the caller.
    Line,
}

/// How the bits of the second operand are led to the cells.
#[derive(Clone, Copy, Debug, PartialEq, Eq, Structural)]
pub enum Route {
    /// Each bit to its own position.
    Straight,
    /// Each bit one position up, a low level into the lowest.
    ShiftLeft,
    /// Each bit one position down, a low level into the highest.
    ShiftRight,
    /// Each bit one position down, the highest bit staying where it is.
    ShiftRightSigned,
    /// Each bit one position up, the highest into the lowest.
    RotateLeft,
    /// Each bit one position down, the lowest into the highest.
    RotateRight,
    /// Each bit one position up, the carry line into the lowest.
    RotateLeftCarry,
    /// Each bit one position down, the carry line into the highest.
    RotateRightCarry,
}

/// The wiring profile of one operation: the levels of the four control
/// lines of every cell, what feeds the carry input, whether the cells are
/// chained through a lookahead unit or each takes the carry input itself,
/// and the route of the second operand.
#[derive(Clone, Copy, Debug, PartialEq, Eq, Structural)]
pub struct Controls {
    pub enable_a: bool,
    pub invert_b: bool,
    pub x1: bool,
    pub x2: bool,
    pub carry: Carry,
    pub chained: bool,
    pub route: Route,
}

impl Opcode {
    /// The four-bit code of this operation.
    pub open spec fn code_of(self) -> nat {
        match self {
            Opcode::Add => 0,
            Opcode::Adc => 1,
            Opcode::Sub => 2,
            Opcode::Sbb => 3,
            Opcode::Onc => 4,
            Opcode::Twc => 5,
            Opcode::And => 6,
            Opcode::Or => 7,
            Opcode::Xor => 8,
            Opcode::Lsl => 9,
            Opcode::Lsr => 10,
            Opcode::Asr => 11,
            Opcode::Rol => 12,
            Opcode::Ror => 13,
            Opcode::Rcl => 14,
            Opcode::Rcr => 15,
        }
    }

    /// The wiring profile of this operation.
    pub open spec fn profile(self) -> Controls {
        let adder = Controls {
            enable_a: true,
            invert_b: false,
            x1: true,
            x2: false,
            carry: Carry::Low,
            chained: true,
            route: Route::Straight,
        };
        let bitwise = Controls { chained: false, ..adder };
        let pass = Controls { enable_a: false, ..bitwise };
        match self {
            Opcode::Add => adder,
            Opcode::Adc => Controls { carry: Carry::Line, ..adder },
            Opcode::Sub => Controls { invert_b: true, carry: Carry::High, ..adder },
            Opcode::Sbb => Controls { invert_b: true, carry: Carry::Line, ..adder },
            Opcode::Onc => Controls { invert_b: true, ..pass },
            Opcode::Twc => Controls { enable_a: false, invert_b: true, carry: Carry::High, ..adder },
            Opcode::And => Controls { x1: false, carry: Carry::High, ..bitwise },
            Opcode::Or => Controls { x2: true, ..bitwise },
            Opcode::Xor => bitwise,
            Opcode::Lsl => Controls { route: Route::ShiftLeft, ..pass },
            Opcode::Lsr => Controls { route: Route::ShiftRight, ..pass },
            Opcode::Asr => Controls { route: Route::ShiftRightSigned, ..pass },
            Opcode::Rol => Controls { route: Route::RotateLeft, ..pass },
            Opcode::Ror => Controls { route: Route::RotateRight, ..pass },
            Opcode::Rcl => Controls { route: Route::RotateLeftCarry, ..pass },
            Opcode::Rcr => Controls { route: Route::RotateRightCarry, ..pass },
        }
    }

    /// The operation with the code `code`, if there is one: an operation
    /// for each code below sixteen.
    pub fn from_code(code: u8) -> (out: Option<Opcode>)
        ensures
            out is Some <==> code < 16,
            out matches Some(op) ==> op.code_of() == code,
    {
        match code {
            0 => Some(Opcode::Add),
            1 => Some(Opcode::Adc),
            2 => Some(Opcode::Sub),
            3 => Some(Opcode::Sbb),
            4 => Some(Opcode::Onc),
            5 => Some(Opcode::Twc),
            6 => Some(Opcode::And),
            7 => Some(Opcode::Or),
            8 => Some(Opcode::Xor),
            9 => Some(Opcode::Lsl),
            10 => Some(Opcode::Lsr),
            11 => Some(Opcode::Asr),
            12 => Some(Opcode::Rol),
            13 => Some(Opcode::Ror),
            14 => Some(Opcode::Rcl),
            15 => Some(Opcode::Rcr),
            _ => None,
        }
    }

    pub fn code(&self) -> (out: u8)
        ensures
            out == self.code_of(),
    {
        match self {
            Opcode::Add => 0,
            Opcode::Adc => 1,
            Opcode::Sub => 2,
            Opcode::Sbb => 3,
            Opcode::Onc => 4,
            Opcode::Twc => 5,
            Opcode::And => 6,
            Opcode::Or => 7,
            Opcode::Xor => 8,
            Opcode::Lsl => 9,
            Opcode::Lsr => 10,
            Opcode::Asr => 11,
            Opcode::Rol => 12,
            Opcode::Ror => 13,
            Opcode::Rcl => 14,
            Opcode::Rcr => 15,
        }
    }

    /// Decodes this operation into its wiring profile.
    pub fn controls(&self) -> (out: Controls)
        ensures
            out == self.profile(),
    {
        let adder = Controls {
            enable_a: true,
            invert_b: false,
            x1: true,
            x2: false,
            carry: Carry::Low,
            chained: true,
            route: Route::Straight,
        };
        let bitwise = Controls { chained: false, ..adder };
        let pass = Controls { enable_a: false, ..bitwise };
        match self {
            Opcode::Add => adder,
            Opcode::Adc => Controls { carry: Carry::Line, ..adder },
            Opcode::Sub => Controls { invert_b: true, carry: Carry::High, ..adder },
            Opcode::Sbb => Controls { invert_b: true, carry: Carry::Line, ..adder },
            Opcode::Onc => Controls { invert_b: true, ..pass },
            Opcode::Twc => Controls { enable_a: false, invert_b: true, carry: Carry::High, ..adder },
            Opcode::And => Controls { x1: false, carry: Carry::High, ..bitwise },
            Opcode::Or => Controls { x2: true, ..bitwise },
            Opcode::Xor => bitwise,
            Opcode::Lsl => Controls { route: Route::ShiftLeft, ..pass },
            Opcode::Lsr => Controls { route: Route::ShiftRight, ..pass },
            Opcode::Asr => Controls { route: Route::ShiftRightSigned, ..pass },
            Opcode::Rol => Controls { route: Route::RotateLeft, ..pass },
            Opcode::Ror => Controls { route: Route::RotateRight, ..pass },
            Opcode::Rcl => Controls { route: Route::RotateLeftCarry, ..pass },
            Opcode::Rcr => Controls { route: Route::RotateRightCarry, ..pass },
        }
    }
}

/// The level at the carry input of the unit.
pub open spec fn carry_level(carry: Carry, line: bool) -> bool {
    match carry {
        Carry::Low => false,
        Carry::High => true,
        Carry::Line => line,
    }
}

/// The second operand as the cells get it, most significant bit first.
pub open spec fn routed(route: Route, b: Seq<bool>, line: bool) -> Seq<bool> {
    match route {
        Route::Straight => b,
        Route::ShiftLeft => seq![b[1], b[2], b[3], false],
        Route::ShiftRight => seq![false, b[0], b[1], b[2]],
        Route::ShiftRightSigned => seq![b[0], b[0], b[1], b[2]],
        Route::RotateLeft => seq![b[1], b[2], b[3], b[0]],
        Route::RotateRight => seq![b[3], b[0], b[1], b[2]],
        Route::RotateLeftCarry => seq![b[1], b[2], b[3], line],
        Route::RotateRightCarry => seq![line, b[0], b[1], b[2]],
    }
}

/// The bit of the second operand that the route drops: the highest when
/// the bits go up, the lowest when they go down, none when they stay.
pub open spec fn dropped(route: Route, b: Seq<bool>) -> bool {
    match route {
        Route::Straight => false,
        Route::ShiftLeft | Route::RotateLeft | Route::RotateLeftCarry => b[0],
        _ => b[3],
    }
}

/// The propagate signals of the four cells under the profile `k`, least
/// significant first.
pub open spec fn cell_propagates(k: Controls, a: Seq<bool>, b: Seq<bool>) -> Seq<bool> {
    Seq::new(
        4,
        |pos: int|
            cell_propagate(low_bit(a, pos), low_bit(b, pos), k.enable_a, k.invert_b, k.x1, k.x2),
    )
}

/// The generate signals of the four cells under the profile `k`, least
/// significant first.
pub open spec fn cell_generates(k: Controls, a: Seq<bool>, b: Seq<bool>) -> Seq<bool> {
    Seq::new(
        4,
        |pos: int| cell_generate(low_bit(a, pos), low_bit(b, pos), k.enable_a, k.invert_b, k.x2),
    )
}

/// The result bits that the unit computes under the profile `k`, most
/// significant first. Each is the exclusive or of the carry into its cell
/// and the propagate signal of the cell; a chained cell takes the lookahead
/// carry out of the cell below, any other the carry input of the unit.
pub open spec fn unit_bits(k: Controls, a: Seq<bool>, b: Seq<bool>, line: bool) -> Seq<bool> {
    let rb = routed(k.route, b, line);
    let p = cell_propagates(k, a, rb);
    let g = cell_generates(k, a, rb);
    let cin = carry_level(k.carry, line);
    Seq::new(
        4,
        |i: int|
            if k.chained && i < 3 {
                lookahead_carry(p, g, cin, 2 - i) != p[3 - i]
            } else {
                cin != p[3 - i]
            },
    )
}

/// The carry that the unit gives under the profile `k`: the lookahead
/// carry out of the highest cell when the cells are chained, else the bit
/// that the route drops.
pub open spec fn unit_carry(k: Controls, a: Seq<bool>, b: Seq<bool>, line: bool) -> bool {
    let rb = routed(k.route, b, line);
    if k.chained {
        lookahead_carry(
            cell_propagates(k, a, rb),
            cell_generates(k, a, rb),
            carry_level(k.carry, line),
            3,
        )
    } else {
        dropped(k.route, b)
    }
}

/// The complement of `b`, bit by bit.
pub open spec fn complement(b: Seq<bool>) -> Seq<bool> {
    Seq::new(b.len(), |i: int| !b[i])
}

/// What the operation `op` asks of the result bits `out` and the carry
/// `carry`, given the operands `a` and `b`, four bits each and most
/// significant first, and the level `line` of the carry line.
pub open spec fn alu_meets(
    op: Opcode,
    a: Seq<bool>,
    b: Seq<bool>,
    line: bool,
    out: Seq<bool>,
    carry: bool,
) -> bool {
    let x = number(a) as int;
    let y = number(b) as int;
    let c = bit(line) as int;
    match op {
        Opcode::Add => number(out) == (x + y) % 16 && carry == (x + y >= 16),
        Opcode::Adc => number(out) == (x + y + c) % 16 && carry == (x + y + c >= 16),
        Opcode::Sub => number(out) == (x - y) % 16 && carry == (x >= y),
        Opcode::Sbb => number(out) == (x - y - (1 - c)) % 16 && carry == (x >= y + (1 - c)),
        Opcode::Onc => out == complement(b) && !carry,
        Opcode::Twc => number(out) == (0 - y) % 16 && carry == (y == 0),
        Opcode::And => out == Seq::new(4, |i: int| a[i] && b[i]) && !carry,
        Opcode::Or => out == Seq::new(4, |i: int| a[i] || b[i]) && !carry,
        Opcode::Xor => out == Seq::new(4, |i: int| a[i] != b[i]) && !carry,
        Opcode::Lsl => out == seq![b[1], b[2], b[3], false] && carry == b[0],
        Opcode::Lsr => out == seq![false, b[0], b[1], b[2]] && carry == b[3],
        Opcode::Asr => out == seq![b[0], b[0], b[1], b[2]] && carry == b[3],
        Opcode::Rol => out == seq![b[1], b[2], b[3], b[0]] && carry == b[0],
        Opcode::Ror => out == seq![b[3], b[0], b[1], b[2]] && carry == b[3],
        Opcode::Rcl => out == seq![b[1], b[2], b[3], line] && carry == b[0],
        Opcode::Rcr => out == seq![line, b[0], b[1], b[2]] && carry == b[3],
    }
}

/// The complement of a four-bit number is fifteen less the number.
pub proof fn lemma_complement_number(b: Seq<bool>)
    requires
        b.len() == 4,
    ensures
        number(complement(b)) == 15 - number(b),
{
    lemma_number_four(b);
    lemma_number_four(complement(b));
}

/// Under a profile that makes every cell an adder position and chains the
/// cells, the unit adds the first operand, if it is enabled, the second
/// operand or its complement, and the level at the carry input.
pub proof fn lemma_adder_profile(k: Controls, a: Seq<bool>, b: Seq<bool>, line: bool)
    requires
        a.len() == 4,
        b.len() == 4,
        k.x1,
        !k.x2,
        k.chained,
        k.route == Route::Straight,
    ensures
        ({
            let x = if k.enable_a {
                number(a) as int
            } else {
                0
            };
            let y = if k.invert_b {
                15 - number(b)
            } else {
                number(b) as int
            };
            let total = x + y + bit(carry_level(k.carry, line));
            &&& number(unit_bits(k, a, b, line)) == total % 16
            &&& unit_carry(k, a, b, line) == (total >= 16)
        }),
{
    let first = if k.enable_a {
        a
    } else {
        seq![false, false, false, false]
    };
    let second = if k.invert_b {
        complement(b)
    } else {
        b
    };
    let cin = carry_level(k.carry, line);
    let p = cell_propagates(k, a, b);
    let g = cell_generates(k, a, b);
    assert(p =~= propagate_bits(first, second));
    assert(g =~= generate_bits(first, second));
    let out = unit_bits(k, a, b, line);
    assert(out =~= lookahead_sum(first, second, cin)) by {
        assert forall|i: int| 0 <= i < 4 implies out[i] == lookahead_sum(first, second, cin)[i] by {
            assert(p[3 - i] == (first[i] != second[i]));
        }
    }
    assert(unit_carry(k, a, b, line) == lookahead_into(first, second, cin, 4));
    lemma_lookahead_adds(first, second, cin);
    lemma2_to64();
    lemma_number_four(first);
    lemma_complement_number(b);
}

/// Each operation's wiring profile makes the unit compute that operation.
pub proof fn lemma_decode(op: Opcode, a: Seq<bool>, b: Seq<bool>, line: bool)
    requires
        a.len() == 4,
        b.len() == 4,
    ensures
        alu_meets(
            op,
            a,
            b,
            line,
            unit_bits(op.profile(), a, b, line),
            unit_carry(op.profile(), a, b, line),
        ),
{
    let k = op.profile();
    let out = unit_bits(k, a, b, line);
    if k.chained {
        lemma_adder_profile(k, a, b, line);
    } else {
        match op {
            Opcode::Onc => {
                assert(out =~= complement(b));
            },
            Opcode::And => {
                assert(out =~= Seq::new(4, |i: int| a[i] && b[i]));
            },
            Opcode::Or => {
                assert(out =~= Seq::new(4, |i: int| a[i] || b[i]));
            },
            Opcode::Xor => {
                assert(out =~= Seq::new(4, |i: int| a[i] != b[i]));
            },
            _ => {
                assert(out =~= routed(k.route, b, line));
            },
        }
    }
}

/// Whether `propagate` and `generate` are the signals of a cell on the
/// operand bits `a` and `b` whose control lines are inputs fixed at the
/// levels of the profile `k`.
pub open spec fn is_profile_signals(
    propagate: Rc<Gate>,
    generate: Rc<Gate>,
    a: Rc<Gate>,
    b: Rc<Gate>,
    k: Controls,
) -> bool {
    exists|inps: AluGateInputs|
        {
            &&& #[trigger] is_cell_signals(propagate, generate, inps)
            &&& inps.state1 == a
            &&& inps.state2 == b
            &&& is_fixed(inps.enable1, k.enable_a)
            &&& is_fixed(inps.invert2, k.invert_b)
            &&& is_fixed(inps.opcode1, k.x1)
            &&& is_fixed(inps.opcode2, k.x2)
        }
}

/// Whether `cin` is what `carry` names: an input fixed low or high, or
/// the carry line `line`.
pub open spec fn is_carry_input(cin: Rc<Gate>, carry: Carry, line: Rc<Gate>) -> bool {
    match carry {
        Carry::Low => is_fixed(cin, false),
        Carry::High => is_fixed(cin, true),
        Carry::Line => cin == line,
    }
}

/// Whether `carry_out` is the wire that the route drops: the highest of
/// `b` when the bits go up, the lowest when they go down, and an input
/// fixed low when they stay.
pub open spec fn is_dropped(carry_out: Rc<Gate>, route: Route, b: Seq<Rc<Gate>>) -> bool {
    match route {
        Route::Straight => is_fixed(carry_out, false),
        Route::ShiftLeft | Route::RotateLeft | Route::RotateLeftCarry => carry_out == b[0],
        _ => carry_out == b[3],
    }
}

/// Whether `out` is wired as the logic unit under the profile `k`, given
/// the routed second operand `rb`, the generate signals `gens` of the four
/// cells, least significant first, and the carry input `cin`. The result
/// bit of each position is the exclusive or of the carry into it and the
/// propagate signal of its cell. Chained, a position above the lowest
/// takes the lookahead carry out of the position below, and the carry out
/// is `or(generate, and(propagate, cin))` of the group; else every
/// position takes `cin`, and the carry out is the wire that the route
/// drops.
pub open spec fn is_unit_wiring(
    out: Alu4BitOutputs,
    inp1: Seq<Rc<Gate>>,
    inp2: Seq<Rc<Gate>>,
    line: Rc<Gate>,
    k: Controls,
    rb: Seq<Rc<Gate>>,
    gens: Seq<Rc<Gate>>,
    cin: Rc<Gate>,
) -> bool {
    let props = Seq::new(4, |pos: int| out.out[3 - pos].xor_second());
    let through = out.carry_out.operands()[1];
    &&& is_routed(k.route, rb, inp2, line)
    &&& is_carry_input(cin, k.carry, line)
    &&& gens.len() == 4
    &&& forall|pos: int|
        0 <= pos < 4 ==> is_profile_signals(
            #[trigger] props[pos],
            gens[pos],
            inp1[3 - pos],
            rb[3 - pos],
            k,
        )
    &&& forall|pos: int|
        0 <= pos < 4 ==> (#[trigger] out.out[3 - pos]).is_xor_of(
            out.out[3 - pos].xor_first(),
            props[pos],
        )
    &&& out.out[3].xor_first() == cin
    &&& if k.chained {
        &&& forall|pos: int|
            1 <= pos < 4 ==> is_carry(
                *(#[trigger] out.out[3 - pos]).xor_first(),
                props,
                gens,
                cin,
                pos - 1,
            )
        &&& *out.carry_out is Or
        &&& out.carry_out.operands().len() == 2
        &&& is_group_generate(*out.carry_out.operands()[0], props, gens, 3)
        &&& through.is_and_of(seq![through.operands()[0], cin])
        &&& through.operands()[0].is_and_of(props)
    } else {
        &&& forall|pos: int| 1 <= pos < 4 ==> (#[trigger] out.out[3 - pos]).xor_first() == cin
        &&& is_dropped(out.carry_out, k.route, inp2)
    }
}

/// Whether `out` is wired as the logic unit on `inp1`, `inp2` and the
/// carry line `line` under the profile `k`.
pub open spec fn is_logic_unit(
    out: Alu4BitOutputs,
    inp1: Seq<Rc<Gate>>,
    inp2: Seq<Rc<Gate>>,
    line: Rc<Gate>,
    k: Controls,
) -> bool {
    exists|rb: Seq<Rc<Gate>>, gens: Seq<Rc<Gate>>, cin: Rc<Gate>| #[trigger]
        is_unit_wiring(out, inp1, inp2, line, k, rb, gens, cin)
}

/// Whether `out` holds the wires of `b` as `route` leads them, with a
/// fixed low input or `line` where the route brings one in.
pub open spec fn is_routed(
    route: Route,
    out: Seq<Rc<Gate>>,
    b: Seq<Rc<Gate>>,
    line: Rc<Gate>,
) -> bool {
    &&& out.len() == 4
    &&& match route {
        Route::Straight => out == b,
        Route::ShiftLeft => out[0] == b[1] && out[1] == b[2] && out[2] == b[3] && is_fixed(
            out[3],
            false,
        ),
        Route::ShiftRight => is_fixed(out[0], false) && out[1] == b[0] && out[2] == b[1] && out[3]
            == b[2],
        Route::ShiftRightSigned => out == seq![b[0], b[0], b[1], b[2]],
        Route::RotateLeft => out == seq![b[1], b[2], b[3], b[0]],
        Route::RotateRight => out == seq![b[3], b[0], b[1], b[2]],
        Route::RotateLeftCarry => out == seq![b[1], b[2], b[3], line],
        Route::RotateRightCarry => out == seq![line, b[0], b[1], b[2]],
    }
}

/// Leads the wires of the operand `b` to the positions that `route` names.
pub fn route_operand(b: &[GateRef; 4], line: &GateRef, route: Route) -> (out: [GateRef; 4])
    ensures
        is_routed(route, out@, b@, *line),
        forall|cells: Seq<bool>| #[trigger]
            levels(out@, cells) == routed(route, levels(b@, cells), line.value(cells)),
{
    let out = match route {
        Route::Straight => [share(&b[0]), share(&b[1]), share(&b[2]), share(&b[3])],
        Route::ShiftLeft => [share(&b[1]), share(&b[2]), share(&b[3]), constant(false)],
        Route::ShiftRight => [constant(false), share(&b[0]), share(&b[1]), share(&b[2])],
        Route::ShiftRightSigned => [share(&b[0]), share(&b[0]), share(&b[1]), share(&b[2])],
        Route::RotateLeft => [share(&b[1]), share(&b[2]), share(&b[3]), share(&b[0])],
        Route::RotateRight => [share(&b[3]), share(&b[0]), share(&b[1]), share(&b[2])],
        Route::RotateLeftCarry => [share(&b[1]), share(&b[2]), share(&b[3]), share(line)],
        Route::RotateRightCarry => [share(line), share(&b[0]), share(&b[1]), share(&b[2])],
    };
    proof {
        assert(route == Route::Straight ==> out@ =~= b@);
        assert(route == Route::ShiftRightSigned ==> out@ =~= seq![b[0], b[0], b[1], b[2]]);
        assert(route == Route::RotateLeft ==> out@ =~= seq![b[1], b[2], b[3], b[0]]);
        assert(route == Route::RotateRight ==> out@ =~= seq![b[3], b[0], b[1], b[2]]);
        assert(route == Route::RotateLeftCarry ==> out@ =~= seq![b[1], b[2], b[3], *line]);
        assert(route == Route::RotateRightCarry ==> out@ =~= seq![*line, b[0], b[1], b[2]]);
        assert forall|cells: Seq<bool>| #[trigger]
            levels(out@, cells) == routed(route, levels(b@, cells), line.value(cells)) by {
            assert(levels(out@, cells) =~= routed(route, levels(b@, cells), line.value(cells)));
        }
    }
    out
}

/// The propagate and generate signals of one cell whose control lines are
/// held at the levels of the profile `k`.
pub fn profile_signals(a: &GateRef, b: &GateRef, k: Controls) -> (out: (GateRef, GateRef))
    ensures
        is_profile_signals(out.0, out.1, *a, *b, k),
        forall|cells: Seq<bool>| #[trigger]
            out.0.value(cells) == cell_propagate(
                a.value(cells),
                b.value(cells),
                k.enable_a,
                k.invert_b,
                k.x1,
                k.x2,
            ),
        forall|cells: Seq<bool>| #[trigger]
            out.1.value(cells) == cell_generate(
                a.value(cells),
                b.value(cells),
                k.enable_a,
                k.invert_b,
                k.x2,
            ),
{
    let inps = AluGateInputs {
        state1: share(a),
        state2: share(b),
        enable1: constant(k.enable_a),
        invert2: constant(k.invert_b),
        opcode1: constant(k.x1),
        opcode2: constant(k.x2),
        c_in: constant(false),
    };
    let ghost wires = inps;
    let out = cell_signals(inps);
    proof {
        assert(is_cell_signals(out.0, out.1, wires));
    }
    out
}

/// The four-bit logic unit, wired for the operation `opcode`. The operands
/// are `inp1` and `inp2`, most significant bit first; the shifts and
/// rotations work on `inp2` alone.
pub fn alu_4bit(inps: General4BitCarryInputs, opcode: Opcode) -> (out: Alu4BitOutputs)
    ensures
        is_logic_unit(out, inps.inp1@, inps.inp2@, inps.carry_in, opcode.profile()),
        forall|cells: Seq<bool>| #[trigger]
            levels(out.out@, cells) == unit_bits(
                opcode.profile(),
                levels(inps.inp1@, cells),
                levels(inps.inp2@, cells),
                inps.carry_in.value(cells),
            ),
        forall|cells: Seq<bool>| #[trigger]
            out.carry_out.value(cells) == unit_carry(
                opcode.profile(),
                levels(inps.inp1@, cells),
                levels(inps.inp2@, cells),
                inps.carry_in.value(cells),
            ),
        forall|cells: Seq<bool>|
            alu_meets(
                opcode,
                levels(inps.inp1@, cells),
                levels(inps.inp2@, cells),
                inps.carry_in.value(cells),
                #[trigger] levels(out.out@, cells),
                out.carry_out.value(cells),
            ),
{
    let General4BitCarryInputs { inp1, inp2, carry_in } = inps;
    let k = opcode.controls();
    let rb = route_operand(inp2, &carry_in, k.route);
    let cin = match k.carry {
        Carry::Low => constant(false),
        Carry::High => constant(true),
        Carry::Line => share(&carry_in),
    };
    let (prop0, gen0) = profile_signals(&inp1[3], &rb[3], k);
    let (prop1, gen1) = profile_signals(&inp1[2], &rb[2], k);
    let (prop2, gen2) = profile_signals(&inp1[1], &rb[1], k);
    let (prop3, gen3) = profile_signals(&inp1[0], &rb[0], k);
    let props = [prop0, prop1, prop2, prop3];
    let gens = [gen0, gen1, gen2, gen3];
    let out0 = xor(share(&cin), share(&props[0]));
    let out = if k.chained {
        let unit = carry_lookahead_unit(
            CarryLookaheadUnitInputs { props: &props, gens: &gens, carry_in: share(&cin) },
        );
        let out1 = xor(share(&unit.carry_outs[0]), share(&props[1]));
        let out2 = xor(share(&unit.carry_outs[1]), share(&props[2]));
        let out3 = xor(share(&unit.carry_outs[2]), share(&props[3]));
        let through = and(share(&unit.propagate), share(&cin));
        let carry_out = or(share(&unit.generate), through);
        proof {
            assert forall|cells: Seq<bool>| #[trigger]
                carry_out.value(cells) == lookahead_carry(
                    levels(props@, cells),
                    levels(gens@, cells),
                    cin.value(cells),
                    3,
                ) by {
                assert(through.value(cells) == (unit.propagate.value(cells) && cin.value(cells)));
                assert(carry_out.value(cells) == (unit.generate.value(cells) || through.value(
                    cells,
                )));
            }
        }
        let res = Alu4BitOutputs { out: [out3, out2, out1, out0], carry_out };
        proof {
            assert forall|cells: Seq<bool>, i: int| 0 <= i < 3 implies #[trigger] res.out[i].value(
                cells,
            ) == (lookahead_carry(
                levels(props@, cells),
                levels(gens@, cells),
                cin.value(cells),
                2 - i,
            ) != props[3 - i].value(cells)) by {
                assert(unit.carry_outs[2 - i].value(cells) == lookahead_carry(
                    levels(props@, cells),
                    levels(gens@, cells),
                    cin.value(cells),
                    2 - i,
                ));
            }
            assert(carry_out.operands()[1] == through);
            assert(Seq::new(4, |pos: int| res.out[3 - pos].xor_second()) =~= props@);
            assert forall|pos: int| 1 <= pos < 4 implies is_carry(
                *(#[trigger] res.out[3 - pos]).xor_first(),
                props@,
                gens@,
                cin,
                pos - 1,
            ) by {
                assert(res.out[3 - pos].xor_first() == unit.carry_outs[pos - 1]);
            }
            assert(is_unit_wiring(res, inp1@, inp2@, carry_in, k, rb@, gens@, cin));
        }
        res
    } else {
        let out1 = xor(share(&cin), share(&props[1]));
        let out2 = xor(share(&cin), share(&props[2]));
        let out3 = xor(share(&cin), share(&props[3]));
        let carry_out = match k.route {
            Route::Straight => constant(false),
            Route::ShiftLeft | Route::RotateLeft | Route::RotateLeftCarry => share(&inp2[0]),
            _ => share(&inp2[3]),
        };
        let res = Alu4BitOutputs { out: [out3, out2, out1, out0], carry_out };
        proof {
            assert(Seq::new(4, |pos: int| res.out[3 - pos].xor_second()) =~= props@);
            assert(is_unit_wiring(res, inp1@, inp2@, carry_in, k, rb@, gens@, cin));
        }
        res
    };
    proof {
        assert forall|cells: Seq<bool>|
            #![trigger levels(out.out@, cells)]
            #![trigger out.carry_out.value(cells)]
            levels(out.out@, cells) == unit_bits(
                k,
                levels(inp1@, cells),
                levels(inp2@, cells),
                carry_in.value(cells),
            ) && out.carry_out.value(cells) == unit_carry(
                k,
                levels(inp1@, cells),
                levels(inp2@, cells),
                carry_in.value(cells),
            ) && alu_meets(
                opcode,
                levels(inp1@, cells),
                levels(inp2@, cells),
                carry_in.value(cells),
                levels(out.out@, cells),
                out.carry_out.value(cells),
            ) by {
            let a = levels(inp1@, cells);
            let b = levels(inp2@, cells);
            let line = carry_in.value(cells);
            let routed_b = routed(k.route, b, line);
            assert(levels(rb@, cells) == routed_b);
            let p = levels(props@, cells);
            let g = levels(gens@, cells);
            assert(cin.value(cells) == carry_level(k.carry, line));
            assert(p =~= cell_propagates(k, a, routed_b)) by {
                assert forall|pos: int| 0 <= pos < 4 implies p[pos] == cell_propagates(
                    k,
                    a,
                    routed_b,
                )[pos] by {
                    assert(levels(rb@, cells)[3 - pos] == rb[3 - pos].value(cells));
                    assert(a[3 - pos] == inp1[3 - pos].value(cells));
                }
            }
            assert(g =~= cell_generates(k, a, routed_b)) by {
                assert forall|pos: int| 0 <= pos < 4 implies g[pos] == cell_generates(
                    k,
                    a,
                    routed_b,
                )[pos] by {
                    assert(levels(rb@, cells)[3 - pos] == rb[3 - pos].value(cells));
                    assert(a[3 - pos] == inp1[3 - pos].value(cells));
                }
            }
            let expected = unit_bits(k, a, b, line);
            assert forall|i: int| 0 <= i < 4 implies levels(out.out@, cells)[i] == expected[i] by {
                assert(p[3 - i] == props[3 - i].value(cells));
            }
            assert(levels(out.out@, cells) =~= expected);
            lemma_decode(opcode, a, b, line);
        }
    }
    out
}

} // verus!
