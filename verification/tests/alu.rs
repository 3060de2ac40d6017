use logic_gates::alu::{
    alu_4bit, cell_signals, general_gate_alu, profile_signals, route_operand, Carry, Controls,
    Opcode, Route,
};
use logic_gates::bits::{bit4_to_u8, u8_to_4bit};
use logic_gates::gates::{constant, Gate, GateRef};
use logic_gates::types::{AluGateInputs, General4BitCarryInputs};
use std::rc::Rc;

fn run(op: Opcode, x: u8, y: u8, c: bool) -> (u8, bool) {
    let cells: Vec<bool> = Vec::new();
    let a = u8_to_4bit(x);
    let b = u8_to_4bit(y);
    let out = alu_4bit(General4BitCarryInputs { inp1: &a, inp2: &b, carry_in: constant(c) }, op);
    (bit4_to_u8(&out.out, &cells), out.carry_out.eval(&cells))
}

fn expected(op: Opcode, x: u8, y: u8, c: bool) -> (u8, bool) {
    let (x, y, c) = (x as i32, y as i32, c as i32);
    let (value, carry) = match op {
        Opcode::Add => (x + y, x + y >= 16),
        Opcode::Adc => (x + y + c, x + y + c >= 16),
        Opcode::Sub => (x - y, x >= y),
        Opcode::Sbb => (x - y - (1 - c), x >= y + (1 - c)),
        Opcode::Onc => (!y, false),
        Opcode::Twc => (-y, y == 0),
        Opcode::And => (x & y, false),
        Opcode::Or => (x | y, false),
        Opcode::Xor => (x ^ y, false),
        Opcode::Lsl => (y << 1, y & 8 != 0),
        Opcode::Lsr => (y >> 1, y & 1 != 0),
        Opcode::Asr => (y >> 1 | y & 8, y & 1 != 0),
        Opcode::Rol => (y << 1 | y >> 3, y & 8 != 0),
        Opcode::Ror => (y >> 1 | y << 3, y & 1 != 0),
        Opcode::Rcl => (y << 1 | c, y & 8 != 0),
        Opcode::Rcr => (y >> 1 | c << 3, y & 1 != 0),
    };
    (value.rem_euclid(16) as u8, carry)
}

#[test]
fn add_nine_and_seven_overflows() {
    assert_eq!(run(Opcode::from_code(0b0000).unwrap(), 9, 7, false), (0b0000, true));
}

#[test]
fn and_of_1010_and_0110() {
    assert_eq!(run(Opcode::from_code(0b0110).unwrap(), 0b1010, 0b0110, false).0, 0b0010);
}

#[test]
fn shift_left_of_0101() {
    assert_eq!(run(Opcode::from_code(0b1001).unwrap(), 0, 0b0101, false).0, 0b1010);
}

#[test]
fn every_operation_on_every_input() {
    for code in 0u8..16 {
        let op = Opcode::from_code(code).unwrap();
        for x in 0u8..16 {
            for y in 0u8..16 {
                for c in [false, true] {
                    assert_eq!(run(op, x, y, c), expected(op, x, y, c), "{op:?} {x} {y} {c}");
                }
            }
        }
    }
}

#[test]
fn exact_values_of_each_operation() {
    assert_eq!(run(Opcode::Add, 5, 6, true), (11, false));
    assert_eq!(run(Opcode::Adc, 5, 6, true), (12, false));
    assert_eq!(run(Opcode::Adc, 15, 15, true), (15, true));
    assert_eq!(run(Opcode::Sub, 9, 3, false), (6, true));
    assert_eq!(run(Opcode::Sub, 3, 9, false), (10, false));
    assert_eq!(run(Opcode::Sub, 7, 7, false), (0, true));
    assert_eq!(run(Opcode::Sbb, 9, 3, true), (6, true));
    assert_eq!(run(Opcode::Sbb, 9, 3, false), (5, true));
    assert_eq!(run(Opcode::Sbb, 3, 3, false), (15, false));
    assert_eq!(run(Opcode::Onc, 9, 0b0101, true), (0b1010, false));
    assert_eq!(run(Opcode::Twc, 9, 1, false), (15, false));
    assert_eq!(run(Opcode::Twc, 9, 0, false), (0, true));
    assert_eq!(run(Opcode::And, 0b1100, 0b1010, false), (0b1000, false));
    assert_eq!(run(Opcode::Or, 0b1100, 0b1010, true), (0b1110, false));
    assert_eq!(run(Opcode::Xor, 0b1100, 0b1010, true), (0b0110, false));
    assert_eq!(run(Opcode::Lsl, 0, 0b1001, true), (0b0010, true));
    assert_eq!(run(Opcode::Lsr, 0, 0b1001, true), (0b0100, true));
    assert_eq!(run(Opcode::Asr, 0, 0b1010, false), (0b1101, false));
    assert_eq!(run(Opcode::Rol, 0, 0b1001, false), (0b0011, true));
    assert_eq!(run(Opcode::Ror, 0, 0b1001, false), (0b1100, true));
    assert_eq!(run(Opcode::Rcl, 0, 0b1000, true), (0b0001, true));
    assert_eq!(run(Opcode::Rcr, 0, 0b0001, true), (0b1000, true));
    assert_eq!(run(Opcode::Rcr, 0, 0b0001, false), (0b0000, true));
}

#[test]
fn codes_of_operations() {
    for code in 0u8..16 {
        assert_eq!(Opcode::from_code(code).unwrap().code(), code);
    }
    assert_eq!(Opcode::from_code(0b0010), Some(Opcode::Sub));
    assert_eq!(Opcode::from_code(0b1111), Some(Opcode::Rcr));
    assert_eq!(Opcode::Xor.code(), 8);
}

#[test]
fn codes_without_an_operation() {
    assert_eq!(Opcode::from_code(16), None);
    assert_eq!(Opcode::from_code(255), None);
}

#[test]
fn profiles_of_operations() {
    assert_eq!(
        Opcode::Add.controls(),
        Controls {
            enable_a: true,
            invert_b: false,
            x1: true,
            x2: false,
            carry: Carry::Low,
            chained: true,
            route: Route::Straight,
        }
    );
    assert_eq!(
        Opcode::Sub.controls(),
        Controls {
            enable_a: true,
            invert_b: true,
            x1: true,
            x2: false,
            carry: Carry::High,
            chained: true,
            route: Route::Straight,
        }
    );
    assert_eq!(
        Opcode::And.controls(),
        Controls {
            enable_a: true,
            invert_b: false,
            x1: false,
            x2: false,
            carry: Carry::High,
            chained: false,
            route: Route::Straight,
        }
    );
    assert_eq!(
        Opcode::Rcl.controls(),
        Controls {
            enable_a: false,
            invert_b: false,
            x1: true,
            x2: false,
            carry: Carry::Low,
            chained: false,
            route: Route::RotateLeftCarry,
        }
    );
}

#[test]
fn cell_truth_table() {
    let cells: Vec<bool> = Vec::new();
    for n in 0u8..128 {
        let [a, b, en, inv, x1, x2, c] = std::array::from_fn(|i| n >> i & 1 == 1);
        let out = general_gate_alu(AluGateInputs {
            state1: constant(a),
            state2: constant(b),
            enable1: constant(en),
            invert2: constant(inv),
            opcode1: constant(x1),
            opcode2: constant(x2),
            c_in: constant(c),
        });
        let gated_a = !(en && a);
        let gated_b = !(inv != b);
        let and_term = gated_a && x1 && gated_b;
        let or_term = !(gated_a || x2 || gated_b);
        let propagate = !(and_term || or_term);
        assert_eq!(out.generate.eval(&cells), or_term);
        assert_eq!(out.propagate.eval(&cells), propagate);
        assert_eq!(out.out.eval(&cells), c != propagate);
    }
}

#[test]
fn cell_as_an_adder_position() {
    let cells: Vec<bool> = Vec::new();
    for n in 0u8..8 {
        let [a, b, c] = std::array::from_fn(|i| n >> i & 1 == 1);
        let out = general_gate_alu(AluGateInputs {
            state1: constant(a),
            state2: constant(b),
            enable1: constant(true),
            invert2: constant(false),
            opcode1: constant(true),
            opcode2: constant(false),
            c_in: constant(c),
        });
        assert_eq!(out.out.eval(&cells), (a != b) != c);
        assert_eq!(out.propagate.eval(&cells), a != b);
        assert_eq!(out.generate.eval(&cells), a && b);
    }
}

#[test]
fn cell_signals_leave_the_carry_out() {
    let cells = vec![true, false];
    for c in [0usize, 1] {
        let (propagate, generate) = cell_signals(AluGateInputs {
            state1: constant(true),
            state2: constant(true),
            enable1: constant(true),
            invert2: constant(false),
            opcode1: constant(true),
            opcode2: constant(false),
            c_in: Rc::new(Gate::input(c)),
        });
        assert!(!propagate.eval(&cells));
        assert!(generate.eval(&cells));
    }
    let (propagate, generate) =
        profile_signals(&constant(true), &constant(false), Opcode::Or.controls());
    assert!(propagate.eval(&cells));
    assert!(!generate.eval(&cells));
}

#[test]
fn routes_of_the_second_operand() {
    let cells = vec![true, false, false, true, true];
    let b: [GateRef; 4] = std::array::from_fn(|i| Rc::new(Gate::input(i)));
    let line: GateRef = Rc::new(Gate::input(4));
    let levels = |route: Route| -> Vec<bool> {
        route_operand(&b, &line, route).iter().map(|g| g.eval(&cells)).collect()
    };
    assert_eq!(levels(Route::Straight), vec![true, false, false, true]);
    assert_eq!(levels(Route::ShiftLeft), vec![false, false, true, false]);
    assert_eq!(levels(Route::ShiftRight), vec![false, true, false, false]);
    assert_eq!(levels(Route::ShiftRightSigned), vec![true, true, false, false]);
    assert_eq!(levels(Route::RotateLeft), vec![false, false, true, true]);
    assert_eq!(levels(Route::RotateRight), vec![true, true, false, false]);
    assert_eq!(levels(Route::RotateLeftCarry), vec![false, false, true, true]);
    assert_eq!(levels(Route::RotateRightCarry), vec![true, true, false, false]);
    let routed = route_operand(&b, &line, Route::RotateLeftCarry);
    assert!(Rc::ptr_eq(&routed[0], &b[1]));
    assert!(Rc::ptr_eq(&routed[3], &line));
}

#[test]
fn unit_follows_its_cells() {
    let mut cells = vec![false; 9];
    let a: [GateRef; 4] = std::array::from_fn(|i| Rc::new(Gate::input(i)));
    let b: [GateRef; 4] = std::array::from_fn(|i| Rc::new(Gate::input(4 + i)));
    let out = alu_4bit(
        General4BitCarryInputs { inp1: &a, inp2: &b, carry_in: Rc::new(Gate::input(8)) },
        Opcode::Adc,
    );
    assert_eq!(bit4_to_u8(&out.out, &cells), 0);
    cells[8] = true;
    assert_eq!(bit4_to_u8(&out.out, &cells), 1);
    cells[0] = true;
    cells[4] = true;
    assert_eq!(bit4_to_u8(&out.out, &cells), 1);
    assert!(out.carry_out.eval(&cells));
}
