use logic_gates::adders::carry_lookahead::{
    adder_4bit_cl, adder_8bit_cl, carry_gate, carry_lookahead_unit, full_adder_cl, generate_gate,
    product_term,
};
use logic_gates::adders::ripple_carry::{
    adder_8bit_rc, adder_n_bit_rc, full_adder_rc, half_adder, ripple_adder,
};
use logic_gates::bits::{bit4_to_u8, read_number, u8_to_4bit};
use logic_gates::gates::{constant, Gate, GateRef};
use logic_gates::types::{
    Adder4BitInputs, CarryLookaheadUnitInputs, General8BitInputs, GeneralSingleCarryInputs,
    GeneralSingleInputs,
};
use std::rc::Rc;

fn bits_of(num: u8, width: usize) -> Vec<GateRef> {
    (0..width).map(|i| constant(num >> (width - 1 - i) & 1 == 1)).collect()
}

fn eight(num: u8) -> [GateRef; 8] {
    std::array::from_fn(|i| constant(num >> (7 - i) & 1 == 1))
}

fn cells_row(first: usize) -> [GateRef; 4] {
    std::array::from_fn(|i| Rc::new(Gate::input(first + i)))
}

#[test]
fn half_adder_truth_table() {
    let cells: Vec<bool> = Vec::new();
    for a in [false, true] {
        for b in [false, true] {
            let out = half_adder(GeneralSingleInputs { state1: constant(a), state2: constant(b) });
            assert_eq!(out.out_sum.eval(&cells), a != b);
            assert_eq!(out.carry_out.eval(&cells), a && b);
        }
    }
}

#[test]
fn full_adder_truth_table() {
    let cells: Vec<bool> = Vec::new();
    for a in [false, true] {
        for b in [false, true] {
            for c in [false, true] {
                let out = full_adder_rc(GeneralSingleCarryInputs {
                    state1: constant(a),
                    state2: constant(b),
                    carry_in: constant(c),
                });
                let total = a as u8 + b as u8 + c as u8;
                assert_eq!(out.out_sum.eval(&cells), total % 2 == 1);
                assert_eq!(out.carry_out.eval(&cells), total >= 2);
            }
        }
    }
}

#[test]
fn full_adder_cl_truth_table() {
    let cells: Vec<bool> = Vec::new();
    for a in [false, true] {
        for b in [false, true] {
            for c in [false, true] {
                let (sum, prop, gener) = full_adder_cl(constant(a), constant(b), constant(c));
                assert_eq!(sum.eval(&cells), (a != b) != c);
                assert_eq!(prop.eval(&cells), a != b);
                assert_eq!(gener.eval(&cells), a && b);
            }
        }
    }
}

#[test]
fn eight_bit_ripple_adds() {
    let cells: Vec<bool> = Vec::new();
    for (x, y) in [(0u8, 0u8), (1, 1), (200, 100), (255, 1), (255, 255), (85, 170), (127, 1)] {
        let a = eight(x);
        let b = eight(y);
        let out = adder_8bit_rc(General8BitInputs { num1: &a, num2: &b });
        let total = x as u16 + y as u16;
        assert_eq!(read_number(&out.out_sum, &cells) as u16, total % 256);
        assert_eq!(out.carry_out.eval(&cells), total >= 256);
    }
}

#[test]
fn eight_bit_ripple_exact_values() {
    let cells: Vec<bool> = Vec::new();
    let a = eight(200);
    let b = eight(100);
    let out = adder_8bit_rc(General8BitInputs { num1: &a, num2: &b });
    assert_eq!(read_number(&out.out_sum, &cells), 44);
    assert!(out.carry_out.eval(&cells));
}

#[test]
fn ripple_adder_of_any_width() {
    let cells: Vec<bool> = Vec::new();
    let (sum, carry) = adder_n_bit_rc(&[], &[]);
    assert!(sum.is_empty());
    assert!(!carry.eval(&cells));
    let (sum, carry) = ripple_adder(&[], &[], constant(true));
    assert!(sum.is_empty());
    assert!(carry.eval(&cells));
    for width in 1..=6usize {
        let top = 1u8 << width;
        for x in 0..top {
            for y in 0..top {
                let (sum, carry) = adder_n_bit_rc(&bits_of(x, width), &bits_of(y, width));
                assert_eq!(sum.len(), width);
                assert_eq!(read_number(&sum, &cells), (x + y) % top);
                assert_eq!(carry.eval(&cells), x + y >= top);
            }
        }
    }
}

#[test]
fn lookahead_adds_every_pair_of_four_bit_numbers() {
    let cells: Vec<bool> = Vec::new();
    for x in 0u8..16 {
        for y in 0u8..16 {
            for c in [false, true] {
                let a = u8_to_4bit(x);
                let b = u8_to_4bit(y);
                let out = adder_4bit_cl(Adder4BitInputs {
                    num1: &a,
                    num2: &b,
                    carry_in: constant(c),
                });
                let total = x + y + c as u8;
                assert_eq!(bit4_to_u8(&out.sum, &cells), total % 16);
                let carry_out =
                    out.generate.eval(&cells) || (out.propagate.eval(&cells) && c);
                assert_eq!(carry_out, total >= 16);
            }
        }
    }
}

#[test]
fn lookahead_sum_without_overflow() {
    let cells: Vec<bool> = Vec::new();
    for x in 0u8..16 {
        for y in 0u8..(16 - x) {
            let a = u8_to_4bit(x);
            let b = u8_to_4bit(y);
            let out =
                adder_4bit_cl(Adder4BitInputs { num1: &a, num2: &b, carry_in: constant(false) });
            assert_eq!(bit4_to_u8(&out.sum, &cells), x + y);
            assert!(!out.generate.eval(&cells));
        }
    }
}

#[test]
fn lookahead_and_ripple_agree_on_every_input() {
    let cells: Vec<bool> = Vec::new();
    for x in 0u8..16 {
        for y in 0u8..16 {
            for c in [false, true] {
                let a = u8_to_4bit(x);
                let b = u8_to_4bit(y);
                let (rc_sum, rc_carry) = ripple_adder(&a, &b, constant(c));
                let cl = adder_4bit_cl(Adder4BitInputs {
                    num1: &a,
                    num2: &b,
                    carry_in: constant(c),
                });
                for i in 0..4 {
                    assert_eq!(rc_sum[i].eval(&cells), cl.sum[i].eval(&cells));
                }
                let cl_carry = cl.generate.eval(&cells) || (cl.propagate.eval(&cells) && c);
                assert_eq!(rc_carry.eval(&cells), cl_carry);
            }
        }
    }
}

#[test]
fn four_plus_six_is_ten() {
    let cells: Vec<bool> = Vec::new();
    let x = u8_to_4bit(4);
    let y = u8_to_4bit(6);
    let adder = adder_4bit_cl(Adder4BitInputs { num1: &x, num2: &y, carry_in: constant(false) });
    let levels: Vec<bool> = adder.sum.iter().map(|g| g.eval(&cells)).collect();
    assert_eq!(levels, vec![true, false, true, false]);
    assert!(!adder.propagate.eval(&cells));
    assert!(!adder.generate.eval(&cells));
    assert_eq!(bit4_to_u8(&adder.sum, &cells), 10);
}

#[test]
fn group_signals() {
    let cells: Vec<bool> = Vec::new();
    let a = u8_to_4bit(0b1010);
    let b = u8_to_4bit(0b0101);
    let out = adder_4bit_cl(Adder4BitInputs { num1: &a, num2: &b, carry_in: constant(false) });
    assert!(out.propagate.eval(&cells));
    assert!(!out.generate.eval(&cells));
    let a = u8_to_4bit(0b1000);
    let b = u8_to_4bit(0b1000);
    let out = adder_4bit_cl(Adder4BitInputs { num1: &a, num2: &b, carry_in: constant(true) });
    assert!(!out.propagate.eval(&cells));
    assert!(out.generate.eval(&cells));
}

#[test]
fn adder_follows_its_cells() {
    let mut cells = vec![false; 9];
    let a = cells_row(0);
    let b = cells_row(4);
    let out = adder_4bit_cl(Adder4BitInputs {
        num1: &a,
        num2: &b,
        carry_in: Rc::new(Gate::input(8)),
    });
    assert_eq!(bit4_to_u8(&out.sum, &cells), 0);
    cells[3] = true;
    cells[7] = true;
    assert_eq!(bit4_to_u8(&out.sum, &cells), 2);
    cells[8] = true;
    assert_eq!(bit4_to_u8(&out.sum, &cells), 3);
    cells[0] = true;
    cells[4] = true;
    assert_eq!(bit4_to_u8(&out.sum, &cells), 3);
    assert!(out.generate.eval(&cells));
}

#[test]
fn lookahead_unit_carries() {
    let cells: Vec<bool> = Vec::new();
    for p in 0u8..16 {
        for g in 0u8..16 {
            for c in [false, true] {
                let props: [GateRef; 4] = std::array::from_fn(|i| constant(p >> i & 1 == 1));
                let gens: [GateRef; 4] = std::array::from_fn(|i| constant(g >> i & 1 == 1));
                let out = carry_lookahead_unit(CarryLookaheadUnitInputs {
                    props: &props,
                    gens: &gens,
                    carry_in: constant(c),
                });
                let mut carry = c;
                let mut generated = false;
                for i in 0..4 {
                    let pi = p >> i & 1 == 1;
                    let gi = g >> i & 1 == 1;
                    carry = gi || (pi && carry);
                    generated = gi || (pi && generated);
                    if i < 3 {
                        assert_eq!(out.carry_outs[i].eval(&cells), carry);
                    }
                }
                assert_eq!(out.propagate.eval(&cells), p == 15);
                assert_eq!(out.generate.eval(&cells), generated);
            }
        }
    }
}

#[test]
fn carries_are_sums_of_products() {
    let props: [GateRef; 4] = std::array::from_fn(|_| constant(true));
    let gens: [GateRef; 4] = std::array::from_fn(|_| constant(false));
    let carry_in = constant(true);
    for i in 0..4 {
        let gate = carry_gate(&props, &gens, &carry_in, i);
        let Gate::Or(terms) = &*gate else { panic!("not a disjunction") };
        assert_eq!(terms.len(), i + 2);
        for (d, term) in terms.iter().enumerate() {
            let Gate::And(factors) = &**term else { panic!("not a conjunction") };
            if d <= i {
                assert_eq!(factors.len(), d + 1);
                assert!(Rc::ptr_eq(&factors[0], &gens[i - d]));
                for (n, factor) in factors[1..].iter().enumerate() {
                    assert!(Rc::ptr_eq(factor, &props[i - d + 1 + n]));
                }
            } else {
                assert_eq!(factors.len(), i + 2);
                assert!(Rc::ptr_eq(&factors[0], &carry_in));
            }
        }
        let generate = generate_gate(&props, &gens, i);
        let Gate::Or(terms) = &generate else { panic!("not a disjunction") };
        assert_eq!(terms.len(), i + 1);
    }
}

#[test]
fn product_term_takes_the_named_positions() {
    let cells = vec![true, true, false, true, true];
    let props = cells_row(0);
    let lead: GateRef = Rc::new(Gate::input(4));
    assert!(product_term(Rc::clone(&lead), &props, 0, 0).eval(&cells));
    assert!(product_term(Rc::clone(&lead), &props, 0, 2).eval(&cells));
    assert!(!product_term(Rc::clone(&lead), &props, 0, 3).eval(&cells));
    assert!(product_term(Rc::clone(&lead), &props, 3, 4).eval(&cells));
    assert!(!product_term(constant(false), &props, 3, 4).eval(&cells));
}

#[test]
fn eight_bit_lookahead_adds() {
    let cells: Vec<bool> = Vec::new();
    for x in (0u16..256).step_by(5).chain([255, 128, 127, 15, 16, 240]) {
        for y in (0u16..256).step_by(7).chain([255, 128, 127, 15, 16, 240, 1]) {
            let a = eight(x as u8);
            let b = eight(y as u8);
            let out = adder_8bit_cl(General8BitInputs { num1: &a, num2: &b });
            assert_eq!(read_number(&out.out_sum, &cells) as u16, (x + y) % 256);
            assert_eq!(out.carry_out.eval(&cells), x + y >= 256);
        }
    }
}

#[test]
fn eight_bit_lookahead_exact_values() {
    let cells: Vec<bool> = Vec::new();
    let a = eight(200);
    let b = eight(100);
    let out = adder_8bit_cl(General8BitInputs { num1: &a, num2: &b });
    assert_eq!(read_number(&out.out_sum, &cells), 44);
    assert!(out.carry_out.eval(&cells));
    let a = eight(15);
    let b = eight(1);
    let out = adder_8bit_cl(General8BitInputs { num1: &a, num2: &b });
    assert_eq!(read_number(&out.out_sum, &cells), 16);
    assert!(!out.carry_out.eval(&cells));
}

#[test]
fn eight_bit_lookahead_and_ripple_agree() {
    let mut cells = vec![false; 16];
    let a: [GateRef; 8] = std::array::from_fn(|i| Rc::new(Gate::input(i)));
    let b: [GateRef; 8] = std::array::from_fn(|i| Rc::new(Gate::input(8 + i)));
    let cl = adder_8bit_cl(General8BitInputs { num1: &a, num2: &b });
    let rc = adder_8bit_rc(General8BitInputs { num1: &a, num2: &b });
    for n in (0u32..65536).step_by(97) {
        for (i, cell) in cells.iter_mut().enumerate() {
            *cell = n >> i & 1 == 1;
        }
        for i in 0..8 {
            assert_eq!(cl.out_sum[i].eval(&cells), rc.out_sum[i].eval(&cells));
        }
        assert_eq!(cl.carry_out.eval(&cells), rc.carry_out.eval(&cells));
    }
}
