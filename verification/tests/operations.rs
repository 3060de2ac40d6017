use logic_gates::bits::{bit4_to_u8, u8_to_4bit};
use logic_gates::gates::constant;
use logic_gates::objects::UnsignedInteger8;
use logic_gates::operations::{adder_4bit_cl, adder_4bit_clgp, adder_8bit_rc, Ops};
use std::rc::Rc;

fn integer(num: u8) -> Rc<UnsignedInteger8> {
    Rc::new(UnsignedInteger8::from_bits(std::array::from_fn(|i| num >> (7 - i) & 1 == 1)))
}

#[test]
fn ops_half_adder() {
    let cells: Vec<bool> = Vec::new();
    for a in [false, true] {
        for b in [false, true] {
            let Ops::HalfAdder(sum, carry) = Ops::half_adder(&constant(a), &constant(b)) else {
                panic!("not a half adder")
            };
            assert_eq!(sum.eval(&cells), a != b);
            assert_eq!(carry.eval(&cells), a && b);
        }
    }
}

#[test]
fn ops_full_adder() {
    let cells: Vec<bool> = Vec::new();
    for n in 0u8..8 {
        let [a, b, c] = std::array::from_fn(|i| n >> i & 1 == 1);
        let Ops::FullAdder(sum, carry) =
            Ops::full_adder(&constant(a), &constant(b), &constant(c))
        else {
            panic!("not a full adder")
        };
        assert_eq!(sum.eval(&cells), n.count_ones() % 2 == 1);
        assert_eq!(carry.eval(&cells), n.count_ones() >= 2);
    }
}

#[test]
fn ops_adder_8bit() {
    let cells: Vec<bool> = Vec::new();
    let Ops::Adder8Bit(sum, carry) = Ops::adder_8bit(&integer(77), &integer(200)) else {
        panic!("not an eight-bit adder")
    };
    assert_eq!(sum.to_dec(&cells), 21);
    assert!(carry.eval(&cells));
}

#[test]
fn integers_add() {
    let cells: Vec<bool> = Vec::new();
    for (x, y) in [(0u8, 0u8), (12, 30), (255, 255), (128, 128), (1, 254)] {
        let (sum, carry) = adder_8bit_rc(&integer(x), &integer(y));
        assert_eq!(sum.to_dec(&cells), x.wrapping_add(y));
        assert_eq!(carry.eval(&cells), x.checked_add(y).is_none());
    }
}

#[test]
fn lookahead_with_carry_out() {
    let cells: Vec<bool> = Vec::new();
    for x in 0u8..16 {
        for y in 0u8..16 {
            for c in [false, true] {
                let (sum, carry) = adder_4bit_cl(u8_to_4bit(x), u8_to_4bit(y), constant(c));
                let total = x + y + c as u8;
                assert_eq!(bit4_to_u8(&sum, &cells), total % 16);
                assert_eq!(carry.eval(&cells), total >= 16);
            }
        }
    }
}

#[test]
fn lookahead_with_group_signals() {
    let cells: Vec<bool> = Vec::new();
    let (sum, propagate, generate) =
        adder_4bit_clgp(u8_to_4bit(9), u8_to_4bit(7), constant(false));
    assert_eq!(bit4_to_u8(&sum, &cells), 0);
    assert!(generate.eval(&cells));
    assert!(!propagate.eval(&cells));
    let (sum, propagate, generate) =
        adder_4bit_clgp(u8_to_4bit(9), u8_to_4bit(6), constant(true));
    assert_eq!(bit4_to_u8(&sum, &cells), 0);
    assert!(!generate.eval(&cells));
    assert!(propagate.eval(&cells));
}
