use logic_gates::adders::carry_lookahead::{adder_4bit_cl, adder_8bit_cl};
use logic_gates::adders::ripple_carry::{adder_8bit_rc, ripple_adder};
use logic_gates::gates::{constant, nand, xor, Gate, GateRef};
use logic_gates::types::{Adder4BitInputs, General8BitInputs};
use std::rc::Rc;

fn depth(gate: &Gate) -> usize {
    match gate {
        Gate::Input(_) => 0,
        Gate::Not(inner) => 1 + depth(inner),
        Gate::And(inner) | Gate::Or(inner) => {
            1 + inner.iter().map(|g| depth(g)).max().unwrap_or(0)
        }
    }
}

fn row(first: usize) -> [GateRef; 4] {
    std::array::from_fn(|i| Rc::new(Gate::input(first + i)))
}

#[test]
fn depth_of_the_derived_gates() {
    assert_eq!(depth(&xor(constant(true), constant(false))), 3);
    assert_eq!(depth(&nand(constant(true), constant(false))), 2);
    assert_eq!(depth(&Gate::empty_and()), 1);
}

#[test]
fn lookahead_depth_does_not_grow_with_the_position() {
    let a = row(0);
    let b = row(4);
    let out = adder_4bit_cl(Adder4BitInputs {
        num1: &a,
        num2: &b,
        carry_in: Rc::new(Gate::input(8)),
    });
    let depths: Vec<usize> = out.sum.iter().map(|g| depth(g)).collect();
    assert_eq!(depths, vec![8, 8, 8, 6]);
    assert_eq!(depth(&out.propagate), 4);
    assert_eq!(depth(&out.generate), 5);
}

#[test]
fn ripple_depth_grows_with_the_position() {
    let a = row(0);
    let b = row(4);
    let (sum, carry) = ripple_adder(&a, &b, Rc::new(Gate::input(8)));
    let depths: Vec<usize> = sum.iter().map(|g| depth(g)).collect();
    assert_eq!(depths, vec![12, 10, 8, 6]);
    assert_eq!(depth(&carry), 11);
}

#[test]
fn eight_bit_depths() {
    let a: [GateRef; 8] = std::array::from_fn(|i| Rc::new(Gate::input(i)));
    let b: [GateRef; 8] = std::array::from_fn(|i| Rc::new(Gate::input(8 + i)));
    let cl = adder_8bit_cl(General8BitInputs { num1: &a, num2: &b });
    let rc = adder_8bit_rc(General8BitInputs { num1: &a, num2: &b });
    let cl_depths: Vec<usize> = cl.out_sum.iter().map(|g| depth(g)).collect();
    let rc_depths: Vec<usize> = rc.out_sum.iter().map(|g| depth(g)).collect();
    assert_eq!(cl_depths, vec![12, 12, 12, 10, 8, 8, 8, 6]);
    assert_eq!(depth(&cl.carry_out), 7);
    assert_eq!(rc_depths, vec![20, 18, 16, 14, 12, 10, 8, 6]);
    assert_eq!(depth(&rc.carry_out), 19);
}
