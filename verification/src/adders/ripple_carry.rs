//! Adders whose carry runs through the positions one after another.

use crate::bits::{bit, levels, number};
use crate::gates::{
    all_fit, and, constant, is_fixed, lemma_fits_more, lemma_nary_of_fits, lemma_xor_fits, or,
    share, xor, Gate, GateRef,
};
use crate::types::{
    General8BitCarryOutputs, General8BitInputs, GeneralSingleCarryInputs,
    GeneralSingleCarryOutputs, GeneralSingleInputs,
};
use std::rc::Rc;
use vstd::arithmetic::power2::{lemma2_to64, lemma_pow2_unfold, pow2};
use vstd::prelude::*;

verus! {

/// The sum bit of one position: high when an odd number of `a`, `b` and the
/// incoming carry `c` are.
pub open spec fn full_sum(a: bool, b: bool, c: bool) -> bool {
    (a != b) != c
}

/// The carry out of one position: high when at least two of `a`, `b` and
/// the incoming carry `c` are.
pub open spec fn full_carry(a: bool, b: bool, c: bool) -> bool {
    (a && b) || ((a != b) && c)
}

/// The bit of `bits` at position `k`, counted from the least significant.
pub open spec fn low_bit(bits: Seq<bool>, k: int) -> bool {
    bits[bits.len() - 1 - k]
}

/// The carry into position `k` when `a` and `b` are added with `carry_in`
/// coming into position zero, each carry passed on from the position below.
pub open spec fn ripple_carry(a: Seq<bool>, b: Seq<bool>, carry_in: bool, k: nat) -> bool
    decreases k,
{
    if k == 0 {
        carry_in
    } else {
        full_carry(
            low_bit(a, k - 1),
            low_bit(b, k - 1),
            ripple_carry(a, b, carry_in, (k - 1) as nat),
        )
    }
}

/// The sum bits of `a` plus `b` plus `carry_in`, most significant first.
pub open spec fn ripple_sum(a: Seq<bool>, b: Seq<bool>, carry_in: bool) -> Seq<bool> {
    Seq::new(
        a.len(),
        |i: int| full_sum(a[i], b[i], ripple_carry(a, b, carry_in, (a.len() - 1 - i) as nat)),
    )
}

/// Whether `sum` and `carry` are wired as a full adder of `a`, `b` and the
/// incoming carry `c`: with `p = xor(a, b)`, the sum is `xor(p, c)` and the
/// carry is `or(and(a, b), and(p, c))`.
pub open spec fn is_full_adder(
    sum: Rc<Gate>,
    carry: Rc<Gate>,
    a: Rc<Gate>,
    b: Rc<Gate>,
    c: Rc<Gate>,
) -> bool {
    let p = carry.operands()[1].operands()[0];
    &&& p.is_xor_of(a, b)
    &&& sum.is_xor_of(p, c)
    &&& *carry is Or
    &&& carry.operands().len() == 2
    &&& carry.operands()[0].is_and_of(seq![a, b])
    &&& carry.operands()[1].is_and_of(seq![p, c])
}

/// The carry into position `k` of a ripple-carry adder with the sum bits
/// `sum`: `carry_in` at the lowest position, `carry_out` above the
/// highest, and between them the second operand of the sum bit's
/// exclusive or.
pub open spec fn ripple_wire(
    sum: Seq<Rc<Gate>>,
    carry_in: Rc<Gate>,
    carry_out: Rc<Gate>,
    k: int,
) -> Rc<Gate> {
    if k == 0 {
        carry_in
    } else if k == sum.len() {
        carry_out
    } else {
        sum[sum.len() - 1 - k].xor_second()
    }
}

/// Whether `sum` and `carry_out` are wired as the ripple-carry adder of
/// `num1` and `num2` from `carry_in`: a full adder at each position, which
/// takes the carry of the full adder below it.
pub open spec fn is_ripple_adder(
    sum: Seq<Rc<Gate>>,
    carry_out: Rc<Gate>,
    num1: Seq<Rc<Gate>>,
    num2: Seq<Rc<Gate>>,
    carry_in: Rc<Gate>,
) -> bool {
    let n = num1.len() as int;
    &&& sum.len() == n
    &&& n == 0 ==> carry_out == carry_in
    &&& forall|k: int|
        0 <= k < n ==> is_full_adder(
            #[trigger] sum[n - 1 - k],
            ripple_wire(sum, carry_in, carry_out, k + 1),
            num1[n - 1 - k],
            num2[n - 1 - k],
            ripple_wire(sum, carry_in, carry_out, k),
        )
}

/// Whether `sum` and `carry_out` are wired as a ripple-carry adder of
/// `num1` and `num2` that starts from an input fixed low.
pub open spec fn is_ripple_adder_from_low(
    sum: Seq<Rc<Gate>>,
    carry_out: Rc<Gate>,
    num1: Seq<Rc<Gate>>,
    num2: Seq<Rc<Gate>>,
) -> bool {
    let low = if num1.len() == 0 {
        carry_out
    } else {
        sum[sum.len() - 1].xor_second()
    };
    is_fixed(low, false) && is_ripple_adder(sum, carry_out, num1, num2, low)
}

/// A half adder: the sum of two bits and their carry.
pub fn half_adder(inps: GeneralSingleInputs) -> (out: GeneralSingleCarryOutputs)
    ensures
        out.out_sum.is_xor_of(inps.state1, inps.state2),
        out.carry_out.is_and_of(seq![inps.state1, inps.state2]),
        forall|cells: Seq<bool>| #[trigger]
            out.out_sum.value(cells) == (inps.state1.value(cells) != inps.state2.value(cells)),
        forall|cells: Seq<bool>| #[trigger]
            out.carry_out.value(cells) == (inps.state1.value(cells) && inps.state2.value(cells)),
{
    let GeneralSingleInputs { state1, state2 } = inps;
    GeneralSingleCarryOutputs {
        out_sum: xor(share(&state1), share(&state2)),
        carry_out: and(state1, state2),
    }
}

/// A full adder: the sum of two bits and an incoming carry, and the carry
/// that goes on to the next position.
pub fn full_adder_rc(inps: GeneralSingleCarryInputs) -> (out: GeneralSingleCarryOutputs)
    ensures
        is_full_adder(out.out_sum, out.carry_out, inps.state1, inps.state2, inps.carry_in),
        forall|cells: Seq<bool>| #[trigger]
            out.out_sum.value(cells) == full_sum(
                inps.state1.value(cells),
                inps.state2.value(cells),
                inps.carry_in.value(cells),
            ),
        forall|cells: Seq<bool>| #[trigger]
            out.carry_out.value(cells) == full_carry(
                inps.state1.value(cells),
                inps.state2.value(cells),
                inps.carry_in.value(cells),
            ),
{
    let GeneralSingleCarryInputs { state1, state2, carry_in } = inps;
    let out_xor = xor(share(&state1), share(&state2));
    let out_and = and(state1, state2);
    let out_and2 = and(share(&out_xor), share(&carry_in));
    let out_sum = xor(out_xor, carry_in);
    let carry_out = or(out_and, out_and2);
    proof {
        assert forall|cells: Seq<bool>| #[trigger]
            out_sum.value(cells) == full_sum(
                inps.state1.value(cells),
                inps.state2.value(cells),
                inps.carry_in.value(cells),
            ) by {
            assert(out_xor.value(cells) == (inps.state1.value(cells) != inps.state2.value(cells)));
        }
        assert forall|cells: Seq<bool>| #[trigger]
            carry_out.value(cells) == full_carry(
                inps.state1.value(cells),
                inps.state2.value(cells),
                inps.carry_in.value(cells),
            ) by {
            assert(out_xor.value(cells) == (inps.state1.value(cells) != inps.state2.value(cells)));
            assert(out_and.value(cells) == (inps.state1.value(cells) && inps.state2.value(cells)));
            assert(out_and2.value(cells) == (out_xor.value(cells) && inps.carry_in.value(cells)));
        }
    }
    GeneralSingleCarryOutputs { out_sum, carry_out }
}

/// The carries into the low positions do not depend on the bits above
/// them.
pub proof fn lemma_ripple_carry_low(a: Seq<bool>, b: Seq<bool>, carry_in: bool, k: nat)
    requires
        a.len() == b.len(),
        k < a.len(),
    ensures
        ripple_carry(a.drop_first(), b.drop_first(), carry_in, k) == ripple_carry(
            a,
            b,
            carry_in,
            k,
        ),
    decreases k,
{
    if k > 0 {
        lemma_ripple_carry_low(a, b, carry_in, (k - 1) as nat);
        assert(low_bit(a.drop_first(), k - 1) == low_bit(a, k - 1));
        assert(low_bit(b.drop_first(), k - 1) == low_bit(b, k - 1));
    }
}

/// Rippling the carry through `n` positions adds: the sum bits and the
/// carry out of the highest position together hold `a + b + carry_in`.
pub proof fn lemma_ripple_adds(a: Seq<bool>, b: Seq<bool>, carry_in: bool)
    requires
        a.len() == b.len(),
    ensures
        number(ripple_sum(a, b, carry_in)) + pow2(a.len()) * bit(
            ripple_carry(a, b, carry_in, a.len()),
        ) == number(a) + number(b) + bit(carry_in),
    decreases a.len(),
{
    let n = a.len();
    let sum = ripple_sum(a, b, carry_in);
    if n == 0 {
        lemma2_to64();
    } else {
        let a1 = a.drop_first();
        let b1 = b.drop_first();
        let m = (n - 1) as nat;
        lemma_ripple_adds(a1, b1, carry_in);
        assert(sum.drop_first() =~= ripple_sum(a1, b1, carry_in)) by {
            assert forall|i: int| 0 <= i < m implies sum.drop_first()[i] == ripple_sum(
                a1,
                b1,
                carry_in,
            )[i] by {
                lemma_ripple_carry_low(a, b, carry_in, (m - 1 - i) as nat);
            }
        }
        lemma_ripple_carry_low(a, b, carry_in, m);
        let c = ripple_carry(a, b, carry_in, m);
        assert(ripple_carry(a, b, carry_in, n) == full_carry(a[0], b[0], c));
        assert(sum[0] == full_sum(a[0], b[0], c));
        let p = pow2(m);
        lemma_pow2_unfold(n);
        let top = bit(sum[0]) + 2 * bit(full_carry(a[0], b[0], c));
        assert(top == bit(a[0]) + bit(b[0]) + bit(c));
        assert(bit(sum[0]) * p + (2 * p) * bit(full_carry(a[0], b[0], c)) == bit(a[0]) * p + bit(
            b[0],
        ) * p + p * bit(c)) by (nonlinear_arith)
            requires
                bit(sum[0]) + 2 * bit(full_carry(a[0], b[0], c)) == bit(a[0]) + bit(b[0]) + bit(c),
        ;
    }
}

/// An adder of any width whose carry ripples from the least significant
/// position to the most significant, starting from `carry_in`.
pub fn ripple_adder(num1: &[GateRef], num2: &[GateRef], carry_in: GateRef) -> (out: (
    Vec<GateRef>,
    GateRef,
))
    requires
        num1.len() == num2.len(),
    ensures
        is_ripple_adder(out.0@, out.1, num1@, num2@, carry_in),
        forall|cells: Seq<bool>| #[trigger]
            levels(out.0@, cells) == ripple_sum(
                levels(num1@, cells),
                levels(num2@, cells),
                carry_in.value(cells),
            ),
        forall|cells: Seq<bool>| #[trigger]
            out.1.value(cells) == ripple_carry(
                levels(num1@, cells),
                levels(num2@, cells),
                carry_in.value(cells),
                num1.len() as nat,
            ),
        forall|cells: Seq<bool>|
            number(#[trigger] levels(out.0@, cells)) + pow2(num1.len() as nat) * bit(
                out.1.value(cells),
            ) == number(levels(num1@, cells)) + number(levels(num2@, cells)) + bit(
                carry_in.value(cells),
            ),
{
    let n = num1.len();
    let mut low: Vec<GateRef> = Vec::new();
    let mut carry = share(&carry_in);
    let ghost mut wires: Seq<Rc<Gate>> = seq![carry_in];
    let mut k: usize = 0;
    while k < n
        invariant
            n == num1.len(),
            n == num2.len(),
            k <= n,
            low.len() == k,
            wires.len() == k + 1,
            wires[0] == carry_in,
            wires[k as int] == carry,
            forall|j: int|
                0 <= j < k ==> is_full_adder(
                    #[trigger] low[j],
                    wires[j + 1],
                    num1[n - 1 - j],
                    num2[n - 1 - j],
                    wires[j],
                ),
            forall|cells: Seq<bool>, j: int|
                0 <= j < k ==> #[trigger] low[j].value(cells) == full_sum(
                    num1[n - 1 - j].value(cells),
                    num2[n - 1 - j].value(cells),
                    ripple_carry(
                        levels(num1@, cells),
                        levels(num2@, cells),
                        carry_in.value(cells),
                        j as nat,
                    ),
                ),
            forall|cells: Seq<bool>| #[trigger]
                carry.value(cells) == ripple_carry(
                    levels(num1@, cells),
                    levels(num2@, cells),
                    carry_in.value(cells),
                    k as nat,
                ),
        decreases n - k,
    {
        let ghost before = carry;
        let cell = full_adder_rc(
            GeneralSingleCarryInputs {
                state1: share(&num1[n - 1 - k]),
                state2: share(&num2[n - 1 - k]),
                carry_in: carry,
            },
        );
        proof {
            assert forall|cells: Seq<bool>| #[trigger]
                cell.carry_out.value(cells) == ripple_carry(
                    levels(num1@, cells),
                    levels(num2@, cells),
                    carry_in.value(cells),
                    (k + 1) as nat,
                ) by {
                assert(before.value(cells) == ripple_carry(
                    levels(num1@, cells),
                    levels(num2@, cells),
                    carry_in.value(cells),
                    k as nat,
                ));
                assert(low_bit(levels(num1@, cells), k as int) == num1[n - 1 - k].value(cells));
                assert(low_bit(levels(num2@, cells), k as int) == num2[n - 1 - k].value(cells));
            }
            assert forall|cells: Seq<bool>| #[trigger]
                cell.out_sum.value(cells) == full_sum(
                    num1[n - 1 - k].value(cells),
                    num2[n - 1 - k].value(cells),
                    ripple_carry(
                        levels(num1@, cells),
                        levels(num2@, cells),
                        carry_in.value(cells),
                        k as nat,
                    ),
                ) by {
                assert(before.value(cells) == ripple_carry(
                    levels(num1@, cells),
                    levels(num2@, cells),
                    carry_in.value(cells),
                    k as nat,
                ));
            }
        }
        proof {
            wires = wires.push(cell.carry_out);
        }
        low.push(cell.out_sum);
        carry = cell.carry_out;
        k += 1;
    }
    let mut sum: Vec<GateRef> = Vec::new();
    let mut i: usize = 0;
    while i < n
        invariant
            i <= n,
            low.len() == n,
            sum.len() == i,
            forall|j: int| 0 <= j < i ==> sum[j] == low[n - 1 - j],
        decreases n - i,
    {
        sum.push(share(&low[n - 1 - i]));
        i += 1;
    }
    proof {
        assert forall|j: int| 0 <= j <= n implies #[trigger] ripple_wire(sum@, carry_in, carry, j)
            == wires[j] by {
            if 0 < j < n {
                assert(sum[n - 1 - j] == low[j]);
                assert(is_full_adder(
                    low[j],
                    wires[j + 1],
                    num1[n - 1 - j],
                    num2[n - 1 - j],
                    wires[j],
                ));
            }
        }
        assert forall|j: int| 0 <= j < n implies is_full_adder(
            #[trigger] sum[n - 1 - j],
            ripple_wire(sum@, carry_in, carry, j + 1),
            num1[n - 1 - j],
            num2[n - 1 - j],
            ripple_wire(sum@, carry_in, carry, j),
        ) by {
            assert(sum[n - 1 - j] == low[j]);
            assert(ripple_wire(sum@, carry_in, carry, j + 1) == wires[j + 1]);
            assert(ripple_wire(sum@, carry_in, carry, j) == wires[j]);
        }
        assert forall|cells: Seq<bool>| #[trigger]
            levels(sum@, cells) == ripple_sum(
                levels(num1@, cells),
                levels(num2@, cells),
                carry_in.value(cells),
            ) by {
            let a = levels(num1@, cells);
            let b = levels(num2@, cells);
            let expected = ripple_sum(a, b, carry_in.value(cells));
            assert forall|j: int| 0 <= j < n implies levels(sum@, cells)[j] == expected[j] by {
                assert(sum[j] == low[n - 1 - j]);
                assert(low[n - 1 - j].value(cells) == full_sum(
                    num1[j].value(cells),
                    num2[j].value(cells),
                    ripple_carry(a, b, carry_in.value(cells), (n - 1 - j) as nat),
                ));
            }
            assert(levels(sum@, cells) =~= expected);
        }
        assert forall|cells: Seq<bool>|
            number(#[trigger] levels(sum@, cells)) + pow2(n as nat) * bit(carry.value(cells))
                == number(levels(num1@, cells)) + number(levels(num2@, cells)) + bit(
                carry_in.value(cells),
            ) by {
            lemma_ripple_adds(
                levels(num1@, cells),
                levels(num2@, cells),
                carry_in.value(cells),
            );
        }
    }
    (sum, carry)
}

/// A ripple-carry adder of any width with nothing carried in.
pub fn adder_n_bit_rc(num1: &[GateRef], num2: &[GateRef]) -> (out: (Vec<GateRef>, GateRef))
    requires
        num1.len() == num2.len(),
    ensures
        is_ripple_adder_from_low(out.0@, out.1, num1@, num2@),
        forall|cells: Seq<bool>| #[trigger]
            levels(out.0@, cells) == ripple_sum(levels(num1@, cells), levels(num2@, cells), false),
        forall|cells: Seq<bool>| #[trigger]
            out.1.value(cells) == ripple_carry(
                levels(num1@, cells),
                levels(num2@, cells),
                false,
                num1.len() as nat,
            ),
        forall|cells: Seq<bool>|
            number(#[trigger] levels(out.0@, cells)) + pow2(num1.len() as nat) * bit(
                out.1.value(cells),
            ) == number(levels(num1@, cells)) + number(levels(num2@, cells)),
{
    let low = constant(false);
    let out = ripple_adder(num1, num2, share(&low));
    proof {
        let n = num1.len() as int;
        if n > 0 {
            assert(is_full_adder(
                out.0[n - 1 - 0int],
                ripple_wire(out.0@, low, out.1, 1),
                num1[n - 1 - 0int],
                num2[n - 1 - 0int],
                ripple_wire(out.0@, low, out.1, 0),
            ));
            assert(out.0[n - 1].xor_second() == low);
        }
    }
    out
}

/// An eight-bit ripple-carry adder with nothing carried in.
pub fn adder_8bit_rc(inps: General8BitInputs) -> (out: General8BitCarryOutputs)
    ensures
        is_ripple_adder_from_low(out.out_sum@, out.carry_out, inps.num1@, inps.num2@),
        forall|cells: Seq<bool>| #[trigger]
            levels(out.out_sum@, cells) == ripple_sum(
                levels(inps.num1@, cells),
                levels(inps.num2@, cells),
                false,
            ),
        forall|cells: Seq<bool>| #[trigger]
            out.carry_out.value(cells) == ripple_carry(
                levels(inps.num1@, cells),
                levels(inps.num2@, cells),
                false,
                8,
            ),
        forall|cells: Seq<bool>|
            number(#[trigger] levels(out.out_sum@, cells)) + 256 * bit(out.carry_out.value(cells))
                == number(levels(inps.num1@, cells)) + number(levels(inps.num2@, cells)),
{
    let General8BitInputs { num1, num2 } = inps;
    let (sum, carry_out) = adder_n_bit_rc(num1.as_slice(), num2.as_slice());
    let out_sum = [
        share(&sum[0]),
        share(&sum[1]),
        share(&sum[2]),
        share(&sum[3]),
        share(&sum[4]),
        share(&sum[5]),
        share(&sum[6]),
        share(&sum[7]),
    ];
    proof {
        lemma2_to64();
        assert(out_sum@ =~= sum@);
    }
    General8BitCarryOutputs { out_sum, carry_out }
}

/// A full adder whose operand bits are at most `levels` deep and whose
/// incoming carry is at most `carry_levels` deep, at least three more,
/// puts two levels on top of the carry for the carry it passes on, and
/// three for its sum bit.
pub proof fn lemma_full_adder_fits(
    sum: Rc<Gate>,
    carry: Rc<Gate>,
    a: Rc<Gate>,
    b: Rc<Gate>,
    c: Rc<Gate>,
    levels: nat,
    carry_levels: nat,
)
    requires
        is_full_adder(sum, carry, a, b, c),
        a.fits(levels),
        b.fits(levels),
        c.fits(carry_levels),
        levels + 3 <= carry_levels,
    ensures
        carry.fits(carry_levels + 2),
        sum.fits(carry_levels + 3),
{
    let p = carry.operands()[1].operands()[0];
    lemma_xor_fits(&*p, a, b, levels);
    lemma_fits_more(&*p, levels + 3, carry_levels);
    lemma_xor_fits(&*sum, p, c, carry_levels);
    lemma_fits_more(&*a, levels, carry_levels);
    lemma_fits_more(&*b, levels, carry_levels);
    let both = seq![a, b];
    let through = seq![p, c];
    assert(both[0] == a && both[1] == b && through[0] == p && through[1] == c);
    assert(all_fit(both, carry_levels));
    assert(all_fit(through, carry_levels));
    lemma_nary_of_fits(&*carry.operands()[0], both, carry_levels);
    lemma_nary_of_fits(&*carry.operands()[1], through, carry_levels);
    assert(all_fit(carry.operands(), carry_levels + 1));
    lemma_nary_of_fits(&*carry, carry.operands(), carry_levels + 1);
}

/// A ripple-carry adder gets deeper position by position: with operands
/// and carry at most `levels` deep, the carry into position `k` is within
/// `3 + 2 * k` levels of them and the sum bit of position `k` within
/// `6 + 2 * k`.
pub proof fn lemma_ripple_fits(
    sum: Seq<Rc<Gate>>,
    carry_out: Rc<Gate>,
    num1: Seq<Rc<Gate>>,
    num2: Seq<Rc<Gate>>,
    carry_in: Rc<Gate>,
    levels: nat,
    k: int,
)
    requires
        num1.len() == num2.len(),
        is_ripple_adder(sum, carry_out, num1, num2, carry_in),
        all_fit(num1, levels),
        all_fit(num2, levels),
        carry_in.fits(levels),
        0 <= k <= num1.len(),
    ensures
        ripple_wire(sum, carry_in, carry_out, k).fits((levels + 3 + 2 * k) as nat),
        k < num1.len() ==> sum[num1.len() - 1 - k].fits((levels + 6 + 2 * k) as nat),
    decreases k,
{
    let n = num1.len() as int;
    if k == 0 {
        lemma_fits_more(&*carry_in, levels, levels + 3);
    } else {
        lemma_ripple_fits(sum, carry_out, num1, num2, carry_in, levels, k - 1);
        lemma_full_adder_fits(
            sum[n - 1 - (k - 1)],
            ripple_wire(sum, carry_in, carry_out, k),
            num1[n - 1 - (k - 1)],
            num2[n - 1 - (k - 1)],
            ripple_wire(sum, carry_in, carry_out, k - 1),
            levels,
            (levels + 3 + 2 * (k - 1)) as nat,
        );
    }
    if k < n {
        lemma_full_adder_fits(
            sum[n - 1 - k],
            ripple_wire(sum, carry_in, carry_out, k + 1),
            num1[n - 1 - k],
            num2[n - 1 - k],
            ripple_wire(sum, carry_in, carry_out, k),
            levels,
            (levels + 3 + 2 * k) as nat,
        );
    }
}

} // verus!
