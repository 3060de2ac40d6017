use logic_gates::bits::{bit4_to_u8, read_number, u8_to_4bit};
use logic_gates::gates::{constant, Gate, GateRef, Signal};
use logic_gates::objects::UnsignedInteger8;
use std::rc::Rc;

#[test]
fn four_bits_of_ten() {
    let cells: Vec<bool> = Vec::new();
    let bits = u8_to_4bit(10);
    let levels: Vec<bool> = bits.iter().map(|g| g.eval(&cells)).collect();
    assert_eq!(levels, vec![true, false, true, false]);
    assert!(matches!(*bits[0], Gate::Input(Signal::Fixed(true))));
}

#[test]
fn four_bit_round_trip() {
    let cells: Vec<bool> = Vec::new();
    for num in 0u8..16 {
        assert_eq!(bit4_to_u8(&u8_to_4bit(num), &cells), num);
    }
}

#[test]
fn four_bit_edges() {
    let cells: Vec<bool> = Vec::new();
    let zero: Vec<bool> = u8_to_4bit(0).iter().map(|g| g.eval(&cells)).collect();
    let top: Vec<bool> = u8_to_4bit(15).iter().map(|g| g.eval(&cells)).collect();
    assert_eq!(zero, vec![false; 4]);
    assert_eq!(top, vec![true; 4]);
}

#[test]
fn bits_are_most_significant_first() {
    let cells: Vec<bool> = Vec::new();
    let bits = [constant(true), constant(false), constant(false), constant(false)];
    assert_eq!(bit4_to_u8(&bits, &cells), 8);
    let bits = [constant(false), constant(false), constant(false), constant(true)];
    assert_eq!(bit4_to_u8(&bits, &cells), 1);
}

#[test]
fn read_number_of_any_width() {
    let cells = vec![true, false];
    let one: GateRef = Rc::new(Gate::input(0));
    let zero: GateRef = Rc::new(Gate::input(1));
    let none: Vec<GateRef> = Vec::new();
    assert_eq!(read_number(&none, &cells), 0);
    assert_eq!(read_number(&[Rc::clone(&one)], &cells), 1);
    assert_eq!(read_number(&[Rc::clone(&one), Rc::clone(&zero), Rc::clone(&one)], &cells), 5);
    let eight: Vec<GateRef> = (0..8).map(|_| Rc::clone(&one)).collect();
    assert_eq!(read_number(&eight, &cells), 255);
}

#[test]
fn integer_from_bits() {
    let cells: Vec<bool> = Vec::new();
    let num = UnsignedInteger8::from_bits([true, true, false, false, true, false, false, false]);
    assert_eq!(num.to_dec(&cells), 200);
    let num = UnsignedInteger8::from_bits([false; 8]);
    assert_eq!(num.to_dec(&cells), 0);
}

#[test]
fn empty_integer_is_all_ones() {
    let cells: Vec<bool> = Vec::new();
    assert_eq!(UnsignedInteger8::new_empty().to_dec(&cells), 255);
}

#[test]
fn integer_set_replaces_one_bit() {
    let cells: Vec<bool> = Vec::new();
    let mut num = UnsignedInteger8::new_empty();
    num.set(constant(false), 0);
    assert_eq!(num.to_dec(&cells), 127);
    num.set(constant(false), 7);
    assert_eq!(num.to_dec(&cells), 126);
}

#[test]
fn integer_follows_its_cells() {
    let mut cells = vec![false; 8];
    let bits: [GateRef; 8] = std::array::from_fn(|i| Rc::new(Gate::input(i)));
    let num = UnsignedInteger8::new(bits);
    assert_eq!(num.to_dec(&cells), 0);
    cells[7] = true;
    assert_eq!(num.to_dec(&cells), 1);
    cells[0] = true;
    assert_eq!(num.to_dec(&cells), 129);
}
