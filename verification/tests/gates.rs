use logic_gates::gates::{and, constant, empty_and, empty_or, input, nand, not, or, xor, Gate, Signal};
use std::rc::Rc;

#[test]
fn constant_holds_its_level() {
    let cells: Vec<bool> = Vec::new();
    assert!(constant(true).eval(&cells));
    assert!(!constant(false).eval(&cells));
    assert!(Gate::constant(true).eval(&cells));
    assert!(!Gate::input_empty(false).eval(&cells));
    assert!(matches!(Gate::constant(true), Gate::Input(Signal::Fixed(true))));
}

#[test]
fn xor_truth_table() {
    let cells: Vec<bool> = Vec::new();
    for a in [false, true] {
        for b in [false, true] {
            let gate = xor(constant(a), constant(b));
            assert_eq!(gate.eval(&cells), (a || b) && !(a && b));
            assert_eq!(Gate::xor(constant(a), constant(b)).eval(&cells), a != b);
        }
    }
}

#[test]
fn nand_truth_table() {
    let cells: Vec<bool> = Vec::new();
    for a in [false, true] {
        for b in [false, true] {
            let gate = nand(constant(a), constant(b));
            assert_eq!(gate.eval(&cells), !(a && b));
            assert_eq!(Gate::nand(constant(a), constant(b)).eval(&cells), !(a && b));
        }
    }
}

#[test]
fn and_or_not_truth_tables() {
    let cells: Vec<bool> = Vec::new();
    for a in [false, true] {
        assert_eq!(not(constant(a)).eval(&cells), !a);
        assert_eq!(Gate::not(constant(a)).eval(&cells), !a);
        for b in [false, true] {
            assert_eq!(and(constant(a), constant(b)).eval(&cells), a && b);
            assert_eq!(or(constant(a), constant(b)).eval(&cells), a || b);
            assert_eq!(Gate::and(constant(a), constant(b)).eval(&cells), a && b);
            assert_eq!(Gate::or(constant(a), constant(b)).eval(&cells), a || b);
        }
    }
}

#[test]
fn empty_and_is_high_and_empty_or_is_low() {
    let cells: Vec<bool> = Vec::new();
    assert!(Gate::empty_and().eval(&cells));
    assert!(!Gate::empty_or().eval(&cells));
    assert!(empty_and().eval(&cells));
    assert!(!empty_or().eval(&cells));
}

#[test]
fn xor_is_the_two_level_expansion() {
    let a = constant(true);
    let b = constant(false);
    let gate = Gate::xor(Rc::clone(&a), Rc::clone(&b));
    let Gate::Or(terms) = gate else { panic!("not a disjunction") };
    assert_eq!(terms.len(), 2);
    let Gate::And(left) = &*terms[0] else { panic!("not a conjunction") };
    let Gate::And(right) = &*terms[1] else { panic!("not a conjunction") };
    assert_eq!(left.len(), 2);
    assert_eq!(right.len(), 2);
    let Gate::Not(not_a) = &*left[0] else { panic!("not a negation") };
    assert!(Rc::ptr_eq(not_a, &a));
    assert!(Rc::ptr_eq(&left[1], &b));
    assert!(Rc::ptr_eq(&right[0], &a));
    let Gate::Not(not_b) = &*right[1] else { panic!("not a negation") };
    assert!(Rc::ptr_eq(not_b, &b));
}

#[test]
fn nand_is_not_of_and() {
    let a = constant(true);
    let b = constant(true);
    let gate = Gate::nand(Rc::clone(&a), Rc::clone(&b));
    let Gate::Not(inner) = gate else { panic!("not a negation") };
    let Gate::And(operands) = &*inner else { panic!("not a conjunction") };
    assert_eq!(operands.len(), 2);
    assert!(Rc::ptr_eq(&operands[0], &a));
    assert!(Rc::ptr_eq(&operands[1], &b));
}

#[test]
fn operands_are_shared_not_copied() {
    let a = constant(true);
    let b = constant(false);
    assert_eq!(Rc::strong_count(&a), 1);
    let gate = xor(Rc::clone(&a), Rc::clone(&b));
    assert_eq!(Rc::strong_count(&a), 3);
    assert_eq!(Rc::strong_count(&b), 3);
    drop(gate);
    assert_eq!(Rc::strong_count(&a), 1);
}

#[test]
fn shared_input_follows_its_cell() {
    let mut cells = vec![false, true];
    let a = Rc::new(Gate::input(0));
    let b = Rc::new(input(1));
    let gate = and(Rc::clone(&a), Rc::clone(&b));
    assert!(!gate.eval(&cells));
    cells[0] = true;
    assert!(gate.eval(&cells));
    assert!(a.eval(&cells));
}

#[test]
fn one_cell_fans_out_to_many_gates() {
    let mut cells = vec![true];
    let a = Rc::new(Gate::input(0));
    let same = xor(Rc::clone(&a), Rc::clone(&a));
    let both = and(Rc::clone(&a), Rc::clone(&a));
    assert!(!same.eval(&cells));
    assert!(both.eval(&cells));
    cells[0] = false;
    assert!(!same.eval(&cells));
    assert!(!both.eval(&cells));
}

#[test]
fn missing_cell_reads_low() {
    let cells = vec![true];
    assert!(!Gate::input(1).eval(&cells));
    assert!(Gate::input(0).eval(&cells));
    assert!(matches!(Gate::input(1), Gate::Input(Signal::Shared(1))));
}

#[test]
fn evaluating_twice_gives_the_same_level() {
    let cells = vec![true, false, true];
    let gate = or(
        and(Rc::new(Gate::input(0)), Rc::new(Gate::input(1))),
        not(Rc::new(Gate::input(2))),
    );
    let first = gate.eval(&cells);
    let second = gate.eval(&cells);
    assert_eq!(first, second);
    assert!(!first);
}

#[test]
fn rewriting_a_cell_changes_only_gates_that_read_it() {
    let mut cells = vec![true, true, false];
    let reads_0_and_1 = and(Rc::new(Gate::input(0)), Rc::new(Gate::input(1)));
    let reads_2 = not(Rc::new(Gate::input(2)));
    let before_a = reads_0_and_1.eval(&cells);
    let before_b = reads_2.eval(&cells);
    cells[0] = false;
    assert_ne!(reads_0_and_1.eval(&cells), before_a);
    assert_eq!(reads_2.eval(&cells), before_b);
    cells[2] = true;
    assert_ne!(reads_2.eval(&cells), before_b);
    assert!(!reads_0_and_1.eval(&cells));
}

#[test]
fn apply_replaces_the_operand_of_a_negation() {
    let cells: Vec<bool> = Vec::new();
    let gate = Gate::not(constant(true)).apply(constant(false));
    assert!(gate.eval(&cells));
    let Gate::Not(inner) = gate else { panic!("not a negation") };
    assert!(matches!(*inner, Gate::Input(Signal::Fixed(false))));
}

#[test]
fn apply_appends_to_a_conjunction() {
    let cells: Vec<bool> = Vec::new();
    let gate = Gate::empty_and().apply(constant(true));
    assert!(gate.eval(&cells));
    let gate = gate.apply(constant(true)).apply(constant(false));
    assert!(!gate.eval(&cells));
    let Gate::And(operands) = gate else { panic!("not a conjunction") };
    assert_eq!(operands.len(), 3);
    assert!(matches!(*operands[2], Gate::Input(Signal::Fixed(false))));
}

#[test]
fn apply_appends_to_a_disjunction() {
    let cells: Vec<bool> = Vec::new();
    let gate = Gate::empty_or().apply(constant(false));
    assert!(!gate.eval(&cells));
    let gate = gate.apply(constant(false)).apply(constant(true));
    assert!(gate.eval(&cells));
    let Gate::Or(operands) = gate else { panic!("not a disjunction") };
    assert_eq!(operands.len(), 3);
}

#[test]
fn wide_gates_fold_over_all_operands() {
    let cells = vec![true, true, true, false];
    let mut all = Gate::empty_and();
    let mut any = Gate::empty_or();
    for cell in 0..3 {
        all = all.apply(Rc::new(Gate::input(cell)));
        any = any.apply(Rc::new(Gate::input(3)));
    }
    assert!(all.eval(&cells));
    assert!(!any.eval(&cells));
    all = all.apply(Rc::new(Gate::input(3)));
    any = any.apply(Rc::new(Gate::input(0)));
    assert!(!all.eval(&cells));
    assert!(any.eval(&cells));
}
