//! Bit vectors as numbers.
//!
//! A bit vector is a sequence of levels, most significant first. The
//! functions here say which number such a sequence holds, and convert
//! between small integers and rows of gates.

use crate::gates::{constant, is_fixed, Gate, GateRef};
use std::rc::Rc;
use vstd::arithmetic::power2::{lemma2_to64, lemma_pow2_unfold, pow2};
use vstd::prelude::*;

verus! {

/// The number that one level stands for.
pub open spec fn bit(level: bool) -> nat {
    if level {
        1
    } else {
        0
    }
}

/// The unsigned number that `bits` holds, most significant bit first.
pub open spec fn number(bits: Seq<bool>) -> nat
    decreases bits.len(),
{
    if bits.len() == 0 {
        0
    } else {
        bit(bits[0]) * pow2((bits.len() - 1) as nat) + number(bits.drop_first())
    }
}

/// The levels of `gates` under the bank `cells`, in the same order.
pub open spec fn levels(gates: Seq<Rc<Gate>>, cells: Seq<bool>) -> Seq<bool> {
    Seq::new(gates.len(), |i: int| gates[i].value(cells))
}

/// A bit vector of `n` bits holds a number below `2^n`.
pub proof fn lemma_number_bound(bits: Seq<bool>)
    ensures
        number(bits) < pow2(bits.len()),
    decreases bits.len(),
{
    if bits.len() == 0 {
        lemma2_to64();
    } else {
        lemma_number_bound(bits.drop_first());
        lemma_pow2_unfold(bits.len());
    }
}

/// One more bit at the least significant end doubles the number and adds
/// the bit.
pub proof fn lemma_number_push(bits: Seq<bool>, last: bool)
    ensures
        number(bits.push(last)) == 2 * number(bits) + bit(last),
    decreases bits.len(),
{
    let more = bits.push(last);
    if bits.len() == 0 {
        lemma2_to64();
        assert(more.drop_first() =~= Seq::<bool>::empty());
        assert(number(more.drop_first()) == 0);
        assert(more[0] == last);
        assert(number(more) == bit(last) * pow2(0) + number(more.drop_first()));
        assert(bit(last) * pow2(0) == bit(last)) by (nonlinear_arith)
            requires
                pow2(0) == 1,
        ;
        assert(number(bits) == 0);
    } else {
        let n = bits.len();
        let rest = bits.drop_first();
        lemma_number_push(rest, last);
        assert(more.drop_first() =~= rest.push(last));
        lemma_pow2_unfold(n);
        let p = pow2((n - 1) as nat);
        let top = bit(bits[0]);
        assert(more[0] == bits[0]);
        assert(number(more) == top * pow2(n) + number(more.drop_first()));
        assert(number(bits) == top * p + number(rest));
        assert(top * pow2(n) == 2 * (top * p)) by (nonlinear_arith)
            requires
                pow2(n) == 2 * p,
        ;
    }
}

/// A bit vector holds its high part, moved up by the width of its low
/// part, plus its low part.
pub proof fn lemma_number_concat(high: Seq<bool>, low: Seq<bool>)
    ensures
        number(high + low) == number(high) * pow2(low.len()) + number(low),
    decreases low.len(),
{
    if low.len() == 0 {
        lemma2_to64();
        assert(high + low =~= high);
        assert(number(high) * pow2(0) == number(high)) by (nonlinear_arith)
            requires
                pow2(0) == 1,
        ;
    } else {
        let rest = low.drop_last();
        let last = low.last();
        lemma_number_concat(high, rest);
        assert(high + low =~= (high + rest).push(last));
        assert(low =~= rest.push(last));
        lemma_number_push(high + rest, last);
        lemma_number_push(rest, last);
        lemma_pow2_unfold(low.len());
        let p = pow2(rest.len());
        assert(2 * (number(high) * p) == number(high) * (2 * p)) by (nonlinear_arith);
    }
}

/// The number held by four bits, written out.
pub proof fn lemma_number_four(bits: Seq<bool>)
    requires
        bits.len() == 4,
    ensures
        number(bits) == 8 * bit(bits[0]) + 4 * bit(bits[1]) + 2 * bit(bits[2]) + bit(bits[3]),
{
    let b0 = Seq::<bool>::empty();
    let b1 = b0.push(bits[0]);
    let b2 = b1.push(bits[1]);
    let b3 = b2.push(bits[2]);
    assert(number(b0) == 0);
    lemma_number_push(b0, bits[0]);
    lemma_number_push(b1, bits[1]);
    lemma_number_push(b2, bits[2]);
    lemma_number_push(b3, bits[3]);
    assert(b3.push(bits[3]) =~= bits);
}

/// The binary digit of `num` at position `k`, counted from the least
/// significant.
pub open spec fn digit(num: nat, k: nat) -> bool {
    (num / pow2(k)) % 2 == 1
}

/// The gates of a four-bit number: fixed inputs, most significant first.
pub fn u8_to_4bit(num: u8) -> (bits: [GateRef; 4])
    requires
        num <= 15,
    ensures
        forall|i: int| 0 <= i < 4 ==> is_fixed(#[trigger] bits[i], digit(num as nat, (3 - i) as nat)),
        forall|cells: Seq<bool>| number(#[trigger] levels(bits@, cells)) == num,
{
    let b3 = num & 8 != 0;
    let b2 = num & 4 != 0;
    let b1 = num & 2 != 0;
    let b0 = num & 1 != 0;
    let bits = [constant(b3), constant(b2), constant(b1), constant(b0)];
    proof {
        lemma2_to64();
        assert(num <= 15 ==> (num & 8 != 0) == ((num / 8) % 2 == 1) && (num & 4 != 0) == ((num / 4)
            % 2 == 1) && (num & 2 != 0) == ((num / 2) % 2 == 1) && (num & 1 != 0) == ((num / 1) % 2
            == 1)) by (bit_vector);
        assert(b3 == digit(num as nat, 3) && b2 == digit(num as nat, 2) && b1 == digit(
            num as nat,
            1,
        ) && b0 == digit(num as nat, 0));
        assert(num == 8 * bit(b3) + 4 * bit(b2) + 2 * bit(b1) + bit(b0)) by {
            assert(num <= 15 ==> num == (if num & 8 != 0 { 8u8 } else { 0u8 }) + (if num & 4 != 0 {
                4u8
            } else {
                0u8
            }) + (if num & 2 != 0 { 2u8 } else { 0u8 }) + (if num & 1 != 0 { 1u8 } else { 0u8 }))
                by (bit_vector);
        }
        assert forall|cells: Seq<bool>| number(#[trigger] levels(bits@, cells)) == num by {
            lemma_number_four(levels(bits@, cells));
        }
    }
    bits
}

/// The number that the gates `bits` hold under the current levels of
/// `cells`, most significant bit first.
pub fn read_number(bits: &[GateRef], cells: &Vec<bool>) -> (out: u8)
    requires
        bits.len() <= 8,
    ensures
        out == number(levels(bits@, cells@)),
{
    let mut out: u8 = 0;
    let mut i: usize = 0;
    proof {
        lemma2_to64();
        assert(levels(bits@, cells@).subrange(0, 0) =~= Seq::<bool>::empty());
    }
    while i < bits.len()
        invariant
            i <= bits.len() <= 8,
            out == number(levels(bits@, cells@).subrange(0, i as int)),
            out < pow2(i as nat),
        decreases bits.len() - i,
    {
        let level = bits[i].eval(cells);
        proof {
            let all = levels(bits@, cells@);
            assert(all.subrange(0, i + 1) =~= all.subrange(0, i as int).push(level));
            lemma_number_push(all.subrange(0, i as int), level);
            lemma_pow2_unfold((i + 1) as nat);
            lemma2_to64();
        }
        out = 2 * out + if level { 1 } else { 0 };
        i += 1;
    }
    proof {
        let all = levels(bits@, cells@);
        assert(all.subrange(0, bits.len() as int) =~= all);
    }
    out
}

/// The number that four gates hold under the current levels of `cells`.
pub fn bit4_to_u8(num: &[GateRef; 4], cells: &Vec<bool>) -> (out: u8)
    ensures
        out == number(levels(num@, cells@)),
        out <= 15,
{
    proof {
        lemma_number_bound(levels(num@, cells@));
        lemma2_to64();
    }
    read_number(num.as_slice(), cells)
}

} // verus!
