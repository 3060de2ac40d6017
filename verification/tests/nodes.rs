use logic_gates::gates::{constant, Gate, Signal};
use logic_gates::nodes::{constant_naked, And, Input, Not, Or};
use std::rc::Rc;

#[test]
fn input_node_reads_its_signal() {
    let cells = vec![false, true];
    assert!(constant_naked(true).eval(&cells));
    assert!(!constant_naked(false).eval(&cells));
    assert!(Input::new(Signal::Shared(1)).eval(&cells));
    assert!(!Input::new(Signal::Shared(0)).eval(&cells));
    assert!(!Input::new(Signal::Shared(2)).eval(&cells));
    assert!(matches!(constant_naked(true).into_gate(), Gate::Input(Signal::Fixed(true))));
}

#[test]
fn not_node_negates_and_takes_a_new_operand() {
    let cells: Vec<bool> = Vec::new();
    let mut node = Not::new(constant(true));
    assert!(!node.eval(&cells));
    node.apply(constant(false));
    assert!(node.eval(&cells));
    assert!(node.into_gate().eval(&cells));
}

#[test]
fn and_node_starts_high_and_takes_operands() {
    let cells: Vec<bool> = Vec::new();
    let mut node = And::new(Vec::new());
    assert!(node.eval(&cells));
    node.apply(constant(true));
    assert!(node.eval(&cells));
    node.apply(constant(false));
    assert!(!node.eval(&cells));
    let gate = node.into_gate();
    assert!(!gate.eval(&cells));
    let Gate::And(operands) = gate else { panic!("not a conjunction") };
    assert_eq!(operands.len(), 2);
}

#[test]
fn or_node_starts_low_and_takes_operands() {
    let cells: Vec<bool> = Vec::new();
    let mut node = Or::new(vec![constant(false)]);
    assert!(!node.eval(&cells));
    node.apply(constant(true));
    assert!(node.eval(&cells));
    let gate = Rc::new(node.into_gate());
    assert!(gate.eval(&cells));
    assert!(!Or::new(Vec::new()).eval(&cells));
}
