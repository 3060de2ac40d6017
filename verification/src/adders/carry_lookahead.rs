//! Adders whose carries are computed side by side from the propagate and
//! generate signals of the positions below, as a sum of products, so that
//! no carry waits for another.

use crate::adders::ripple_carry::{lemma_ripple_adds, low_bit, ripple_carry, ripple_sum};
use crate::bits::{bit, lemma_number_bound, lemma_number_concat, levels, number};
use crate::gates::{
    all_fit, and, constant, is_fixed, lemma_fits_more, lemma_nary_of_fits, lemma_xor_fits, share,
    xor, Gate, GateRef,
};
use crate::types::{
    Adder4BitGPOutputs, Adder4BitInputs, CarryLookaheadUnitGPOutputs, CarryLookaheadUnitInputs,
    General8BitCarryOutputs, General8BitInputs,
};
use std::rc::Rc;
use vstd::arithmetic::power2::{lemma2_to64, pow2};
use vstd::prelude::*;

verus! {

/// Whether every position from `lo` up to, not including, `hi` propagates.
pub open spec fn propagates(p: Seq<bool>, lo: int, hi: int) -> bool {
    forall|j: int| lo <= j < hi ==> p[j]
}

/// Whether the positions up to `i` produce a carry out of position `i` by
/// themselves: some position generates one and every position above it, up
/// to `i`, propagates it.
pub open spec fn generated(p: Seq<bool>, g: Seq<bool>, i: int) -> bool {
    generated_within(p, g, i, i + 1)
}

/// Whether one of the `reach` positions from `i` downwards generates a
/// carry that every position above it, up to `i`, propagates.
pub open spec fn generated_within(p: Seq<bool>, g: Seq<bool>, i: int, reach: int) -> bool {
    exists|d: int| 0 <= d < reach && #[trigger] g[i - d] && propagates(p, i - d + 1, i + 1)
}

/// The carry out of position `i`: generated at or below `i`, or carried in
/// and propagated by every position up to `i`.
pub open spec fn lookahead_carry(p: Seq<bool>, g: Seq<bool>, carry_in: bool, i: int) -> bool {
    generated(p, g, i) || (carry_in && propagates(p, 0, i + 1))
}

/// The propagate signals of `a` and `b`, least significant first.
pub open spec fn propagate_bits(a: Seq<bool>, b: Seq<bool>) -> Seq<bool> {
    Seq::new(a.len(), |k: int| low_bit(a, k) != low_bit(b, k))
}

/// The generate signals of `a` and `b`, least significant first.
pub open spec fn generate_bits(a: Seq<bool>, b: Seq<bool>) -> Seq<bool> {
    Seq::new(a.len(), |k: int| low_bit(a, k) && low_bit(b, k))
}

/// The carry into position `k` as the lookahead computes it.
pub open spec fn lookahead_into(a: Seq<bool>, b: Seq<bool>, carry_in: bool, k: int) -> bool {
    if k == 0 {
        carry_in
    } else {
        lookahead_carry(propagate_bits(a, b), generate_bits(a, b), carry_in, k - 1)
    }
}

/// The sum bits of `a` plus `b` plus `carry_in` as the lookahead adder
/// computes them, most significant first.
pub open spec fn lookahead_sum(a: Seq<bool>, b: Seq<bool>, carry_in: bool) -> Seq<bool> {
    Seq::new(
        a.len(),
        |i: int| (a[i] != b[i]) != lookahead_into(a, b, carry_in, a.len() - 1 - i),
    )
}

/// The sum of products unfolds into the carry recurrence: a carry leaves
/// position `i` when it is generated there, or when the position propagates
/// the carry that came into it.
pub proof fn lemma_lookahead_step(p: Seq<bool>, g: Seq<bool>, carry_in: bool, i: int)
    requires
        0 <= i,
    ensures
        lookahead_carry(p, g, carry_in, i) == (g[i] || (p[i] && if i == 0 {
            carry_in
        } else {
            lookahead_carry(p, g, carry_in, i - 1)
        })),
{
    assert(propagates(p, 0, i + 1) == (p[i] && propagates(p, 0, i))) by {
        if p[i] && propagates(p, 0, i) {
            assert forall|j: int| 0 <= j < i + 1 implies p[j] by {}
        }
    }
    if i == 0 {
        if generated(p, g, 0) {
            let d = choose|d: int| 0 <= d < 1 && #[trigger] g[0 - d] && propagates(p, 0 - d + 1, 1);
            assert(g[0]);
        }
        if g[0] {
            assert(g[0 - 0] && propagates(p, 0 - 0 + 1, 1));
        }
    } else {
        if generated(p, g, i) {
            let d = choose|d: int| 0 <= d < i + 1 && #[trigger] g[i - d] && propagates(p, i - d + 1, i + 1);
            if d > 0 {
                assert(p[i]);
                assert(g[(i - 1) - (d - 1)] && propagates(p, (i - 1) - (d - 1) + 1, i));
            }
        }
        if g[i] {
            assert(g[i - 0] && propagates(p, i - 0 + 1, i + 1));
        }
        if p[i] && generated(p, g, i - 1) {
            let d = choose|d: int| 0 <= d < i - 1 + 1 && #[trigger] g[i - 1 - d] && propagates(p, i - 1 - d + 1, i - 1 + 1);
            assert(g[i - (d + 1)]);
            assert forall|j: int| i - (d + 1) + 1 <= j < i + 1 implies p[j] by {}
            assert(propagates(p, i - (d + 1) + 1, i + 1));
        }
    }
}

/// The lookahead computes the carries that rippling would.
pub proof fn lemma_lookahead_is_ripple(a: Seq<bool>, b: Seq<bool>, carry_in: bool, k: nat)
    requires
        a.len() == b.len(),
        k <= a.len(),
    ensures
        lookahead_into(a, b, carry_in, k as int) == ripple_carry(a, b, carry_in, k),
    decreases k,
{
    if k > 0 {
        lemma_lookahead_is_ripple(a, b, carry_in, (k - 1) as nat);
        lemma_lookahead_step(propagate_bits(a, b), generate_bits(a, b), carry_in, k - 1);
    }
}

/// A carry-lookahead adder and a ripple-carry adder give the same sum bits
/// and the same carry out, whatever the operands and the carry in.
pub proof fn lemma_lookahead_matches_ripple(a: Seq<bool>, b: Seq<bool>, carry_in: bool)
    requires
        a.len() == b.len(),
    ensures
        lookahead_sum(a, b, carry_in) == ripple_sum(a, b, carry_in),
        lookahead_into(a, b, carry_in, a.len() as int) == ripple_carry(a, b, carry_in, a.len()),
{
    let n = a.len();
    assert forall|i: int| 0 <= i < n implies lookahead_sum(a, b, carry_in)[i] == ripple_sum(
        a,
        b,
        carry_in,
    )[i] by {
        lemma_lookahead_is_ripple(a, b, carry_in, (n - 1 - i) as nat);
    }
    assert(lookahead_sum(a, b, carry_in) =~= ripple_sum(a, b, carry_in));
    lemma_lookahead_is_ripple(a, b, carry_in, n);
}

/// A carry-lookahead adder adds: its sum bits hold the low bits of
/// `a + b + carry_in`, and its carry out is high exactly when that sum does
/// not fit the width.
pub proof fn lemma_lookahead_adds(a: Seq<bool>, b: Seq<bool>, carry_in: bool)
    requires
        a.len() == b.len(),
    ensures
        number(lookahead_sum(a, b, carry_in)) == (number(a) + number(b) + bit(carry_in)) % pow2(
            a.len(),
        ),
        lookahead_into(a, b, carry_in, a.len() as int) == (number(a) + number(b) + bit(carry_in)
            >= pow2(a.len())),
{
    lemma_lookahead_matches_ripple(a, b, carry_in);
    lemma_ripple_adds(a, b, carry_in);
    let sum = ripple_sum(a, b, carry_in);
    lemma_number_bound(sum);
    let total: nat = number(a) + number(b) + bit(carry_in);
    let p: nat = pow2(a.len());
    let c: nat = bit(ripple_carry(a, b, carry_in, a.len()));
    let low: nat = number(sum);
    assert(total == low + p * c);
    assert(total % p == low && (c == 1 <==> total >= p)) by (nonlinear_arith)
        requires
            total == low + p * c,
            low < p,
            c == 0 || c == 1,
    ;
}

/// Whether `term` is the product of `lead` and the propagate signals of
/// the positions from `lo` up to, not including, `hi`.
pub open spec fn is_product(
    term: Rc<Gate>,
    lead: Rc<Gate>,
    props: Seq<Rc<Gate>>,
    lo: int,
    hi: int,
) -> bool {
    term.is_and_of(seq![lead] + props.subrange(lo, hi))
}

/// Whether the first `reach` operands of the disjunction `gate` are the
/// products for a carry out of position `i`, one for each look-back
/// distance: the generate signal that far below `i` with the propagate
/// signals of the positions above it.
pub open spec fn is_sum_of_products(
    gate: Gate,
    props: Seq<Rc<Gate>>,
    gens: Seq<Rc<Gate>>,
    i: int,
    reach: int,
) -> bool {
    &&& gate is Or
    &&& gate.operands().len() >= reach
    &&& forall|d: int|
        0 <= d < reach ==> is_product(
            #[trigger] gate.operands()[d],
            gens[i - d],
            props,
            i - d + 1,
            i + 1,
        )
}

/// Whether `gate` is the generate signal of the positions up to `i`.
pub open spec fn is_group_generate(
    gate: Gate,
    props: Seq<Rc<Gate>>,
    gens: Seq<Rc<Gate>>,
    i: int,
) -> bool {
    is_sum_of_products(gate, props, gens, i, i + 1) && gate.operands().len() == i + 1
}

/// Whether `gate` is the carry out of position `i`: the generate products
/// and, last, the product that brings `carry_in` through every position.
pub open spec fn is_carry(
    gate: Gate,
    props: Seq<Rc<Gate>>,
    gens: Seq<Rc<Gate>>,
    carry_in: Rc<Gate>,
    i: int,
) -> bool {
    &&& is_sum_of_products(gate, props, gens, i, i + 1)
    &&& gate.operands().len() == i + 2
    &&& is_product(gate.operands()[i + 1], carry_in, props, 0, i + 1)
}

/// The conjunction of `lead` with the propagate signals of the positions
/// from `lo` up to, not including, `hi`.
pub fn product_term(lead: GateRef, props: &[GateRef], lo: usize, hi: usize) -> (term: GateRef)
    requires
        lo <= hi <= props.len(),
    ensures
        is_product(term, lead, props@, lo as int, hi as int),
        forall|cells: Seq<bool>| #[trigger]
            term.value(cells) == (lead.value(cells) && propagates(
                levels(props@, cells),
                lo as int,
                hi as int,
            )),
{
    let mut term = Gate::empty_and().apply(share(&lead));
    proof {
        assert(term.operands() =~= seq![lead] + props@.subrange(lo as int, lo as int));
    }
    let mut j: usize = lo;
    while j < hi
        invariant
            lo <= j <= hi <= props.len(),
            term.is_and_of(seq![lead] + props@.subrange(lo as int, j as int)),
            forall|cells: Seq<bool>| #[trigger]
                term.value(cells) == (lead.value(cells) && propagates(
                    levels(props@, cells),
                    lo as int,
                    j as int,
                )),
        decreases hi - j,
    {
        let ghost before = term;
        term = term.apply(share(&props[j]));
        proof {
            assert(term.operands() =~= seq![lead] + props@.subrange(lo as int, j + 1));
            assert forall|cells: Seq<bool>| #[trigger]
                term.value(cells) == (lead.value(cells) && propagates(
                    levels(props@, cells),
                    lo as int,
                    j + 1,
                )) by {
                let p = levels(props@, cells);
                assert(term.value(cells) == (before.value(cells) && props[j as int].value(cells)));
                assert(p[j as int] == props[j as int].value(cells));
                if propagates(p, lo as int, j as int) && p[j as int] {
                    assert forall|k: int| lo <= k < j + 1 implies p[k] by {}
                }
            }
        }
        j += 1;
    }
    Rc::new(term)
}

/// The generate signal of the positions up to `i`, as a disjunction that
/// can take further products.
pub fn generate_gate(props: &[GateRef], gens: &[GateRef], i: usize) -> (gate: Gate)
    requires
        i < props.len(),
        i < gens.len(),
    ensures
        is_group_generate(gate, props@, gens@, i as int),
        forall|cells: Seq<bool>| #[trigger]
            gate.value(cells) == generated(levels(props@, cells), levels(gens@, cells), i as int),
{
    let mut gate = Gate::empty_or();
    let mut d: usize = 0;
    while d <= i
        invariant
            i < props.len(),
            i < gens.len(),
            d <= i + 1,
            is_sum_of_products(gate, props@, gens@, i as int, d as int),
            gate.operands().len() == d,
            forall|cells: Seq<bool>| #[trigger]
                gate.value(cells) == generated_within(
                    levels(props@, cells),
                    levels(gens@, cells),
                    i as int,
                    d as int,
                ),
        decreases i + 1 - d,
    {
        let ghost before = gate;
        let term = product_term(share(&gens[i - d]), props, i - d + 1, i + 1);
        gate = gate.apply(term);
        proof {
            assert forall|e: int| 0 <= e < d + 1 implies is_product(
                #[trigger] gate.operands()[e],
                gens[i - e],
                props@,
                i - e + 1,
                i + 1,
            ) by {
                if e < d {
                    assert(gate.operands()[e] == before.operands()[e]);
                }
            }
            assert forall|cells: Seq<bool>| #[trigger]
                gate.value(cells) == generated_within(
                    levels(props@, cells),
                    levels(gens@, cells),
                    i as int,
                    d + 1,
                ) by {
                let p = levels(props@, cells);
                let g = levels(gens@, cells);
                assert(gate.value(cells) == (before.value(cells) || term.value(cells)));
                assert(g[i - d] == gens[i - d].value(cells));
                if generated_within(p, g, i as int, d + 1) {
                    let e = choose|e: int|
                        0 <= e < d + 1 && #[trigger] g[i - e] && propagates(p, i - e + 1, i + 1);
                    if e < d {
                        assert(generated_within(p, g, i as int, d as int));
                    }
                }
                if generated_within(p, g, i as int, d as int) {
                    let e = choose|e: int|
                        0 <= e < d && #[trigger] g[i - e] && propagates(p, i - e + 1, i + 1);
                    assert(0 <= e < d + 1 && g[i - e] && propagates(p, i - e + 1, i + 1));
                }
                if term.value(cells) {
                    assert(g[i - d] && propagates(p, i - d + 1, i + 1));
                }
            }
        }
        d += 1;
    }
    gate
}

/// A four-bit carry-lookahead unit. From the propagate and generate
/// signals of four positions and the carry coming in, it gives the carries
/// out of the three low positions, each as one disjunction of products, and
/// the propagate and generate signals of the group.
pub fn carry_lookahead_unit(inps: CarryLookaheadUnitInputs) -> (out: CarryLookaheadUnitGPOutputs)
    ensures
        forall|i: int|
            0 <= i < 3 ==> is_carry(
                *#[trigger] out.carry_outs[i],
                inps.props@,
                inps.gens@,
                inps.carry_in,
                i,
            ),
        out.propagate.is_and_of(inps.props@),
        is_group_generate(*out.generate, inps.props@, inps.gens@, 3),
        forall|cells: Seq<bool>, i: int|
            0 <= i < 3 ==> #[trigger] out.carry_outs[i].value(cells) == lookahead_carry(
                levels(inps.props@, cells),
                levels(inps.gens@, cells),
                inps.carry_in.value(cells),
                i,
            ),
        forall|cells: Seq<bool>| #[trigger]
            out.propagate.value(cells) == propagates(levels(inps.props@, cells), 0, 4),
        forall|cells: Seq<bool>| #[trigger]
            out.generate.value(cells) == generated(
                levels(inps.props@, cells),
                levels(inps.gens@, cells),
                3,
            ),
        forall|depth: nat| #[trigger]
            all_fit(inps.props@, depth) && all_fit(inps.gens@, depth) && inps.carry_in.fits(depth)
                ==> all_fit(out.carry_outs@, depth + 2) && out.propagate.fits(depth + 1)
                && out.generate.fits(depth + 2),
{
    let CarryLookaheadUnitInputs { props, gens, carry_in } = inps;
    let carry0 = carry_gate(props.as_slice(), gens.as_slice(), &carry_in, 0);
    let carry1 = carry_gate(props.as_slice(), gens.as_slice(), &carry_in, 1);
    let carry2 = carry_gate(props.as_slice(), gens.as_slice(), &carry_in, 2);
    let generate = Rc::new(generate_gate(props.as_slice(), gens.as_slice(), 3));
    let propagate = product_term(share(&props[0]), props.as_slice(), 1, 4);
    proof {
        assert(seq![props[0]] + props@.subrange(1, 4) =~= props@);
        assert forall|cells: Seq<bool>| #[trigger]
            propagate.value(cells) == propagates(levels(props@, cells), 0, 4) by {
            let p = levels(props@, cells);
            assert(p[0] == props[0].value(cells));
            if p[0] && propagates(p, 1, 4) {
                assert forall|k: int| 0 <= k < 4 implies p[k] by {}
            }
        }
    }
    let out = CarryLookaheadUnitGPOutputs {
        carry_outs: [carry0, carry1, carry2],
        propagate,
        generate,
    };
    proof {
        assert forall|depth: nat| #[trigger]
            all_fit(props@, depth) && all_fit(gens@, depth) && carry_in.fits(depth) implies all_fit(
            out.carry_outs@,
            depth + 2,
        ) && out.propagate.fits(depth + 1) && out.generate.fits(depth + 2) by {
            assert forall|i: int| 0 <= i < 3 implies (#[trigger] out.carry_outs@[i]).fits(
                depth + 2,
            ) by {
                lemma_carry_fits(&*out.carry_outs[i], props@, gens@, carry_in, i, depth);
            }
            lemma_carry_fits(&*out.generate, props@, gens@, carry_in, 3, depth);
            lemma_nary_of_fits(&*out.propagate, props@, depth);
        }
    }
    out
}

/// The carry out of position `i`: what the positions up to `i` generate,
/// and the carry that came in where all of them propagate it.
pub fn carry_gate(props: &[GateRef], gens: &[GateRef], carry_in: &GateRef, i: usize) -> (gate:
    GateRef)
    requires
        i < props.len(),
        i < gens.len(),
    ensures
        is_carry(*gate, props@, gens@, *carry_in, i as int),
        forall|cells: Seq<bool>| #[trigger]
            gate.value(cells) == lookahead_carry(
                levels(props@, cells),
                levels(gens@, cells),
                carry_in.value(cells),
                i as int,
            ),
{
    let generate = generate_gate(props, gens, i);
    let through = product_term(share(carry_in), props, 0, i + 1);
    let gate = generate.apply(through);
    proof {
        assert forall|d: int| 0 <= d < i + 1 implies is_product(
            #[trigger] gate.operands()[d],
            gens[i - d],
            props@,
            i - d + 1,
            i + 1,
        ) by {
            assert(gate.operands()[d] == generate.operands()[d]);
        }
    }
    Rc::new(gate)
}

/// One position of a lookahead adder: the sum bit, and the propagate and
/// generate signals that the lookahead unit works from.
pub fn full_adder_cl(state1: GateRef, state2: GateRef, carry: GateRef) -> (out: (
    GateRef,
    GateRef,
    GateRef,
))
    ensures
        out.0.is_xor_of(out.1, carry),
        out.1.is_xor_of(state1, state2),
        out.2.is_and_of(seq![state1, state2]),
        forall|cells: Seq<bool>| #[trigger]
            out.0.value(cells) == ((state1.value(cells) != state2.value(cells)) != carry.value(
                cells,
            )),
        forall|cells: Seq<bool>| #[trigger]
            out.1.value(cells) == (state1.value(cells) != state2.value(cells)),
        forall|cells: Seq<bool>| #[trigger]
            out.2.value(cells) == (state1.value(cells) && state2.value(cells)),
{
    let prop = xor(share(&state1), share(&state2));
    let gener = and(state1, state2);
    let out = xor(share(&prop), carry);
    proof {
        assert forall|cells: Seq<bool>| #[trigger]
            out.value(cells) == ((state1.value(cells) != state2.value(cells)) != carry.value(
                cells,
            )) by {
            assert(prop.value(cells) == (state1.value(cells) != state2.value(cells)));
        }
    }
    (out, prop, gener)
}

/// Whether `sum`, `propagate` and `generate` are wired as the four-bit
/// lookahead adder of `num1`, `num2` and `carry_in`: each position has its propagate and generate
/// gates, the group signals are built from those, and each sum bit takes
/// the propagate signal of its position and the carry into it, which for
/// the lowest position is `carry_in` and for the others the lookahead carry
/// out of the position below.
pub open spec fn is_lookahead_adder(
    sum: Seq<Rc<Gate>>,
    propagate: Rc<Gate>,
    generate: Rc<Gate>,
    num1: Seq<Rc<Gate>>,
    num2: Seq<Rc<Gate>>,
    carry_in: Rc<Gate>,
) -> bool {
    let props = propagate.operands();
    let gens = Seq::new(4, |k: int| generate.operands()[3 - k].operands()[0]);
    &&& sum.len() == 4
    &&& *propagate is And
    &&& props.len() == 4
    &&& forall|k: int|
        0 <= k < 4 ==> (#[trigger] props[k]).is_xor_of(num1[3 - k], num2[3 - k])
    &&& forall|k: int|
        0 <= k < 4 ==> (#[trigger] gens[k]).is_and_of(seq![num1[3 - k], num2[3 - k]])
    &&& is_group_generate(*generate, props, gens, 3)
    &&& sum[3].is_xor_of(props[0], carry_in)
    &&& forall|k: int|
        1 <= k < 4 ==> (#[trigger] sum[3 - k]).is_xor_of(props[k], sum[3 - k].xor_second())
            && is_carry(*sum[3 - k].xor_second(), props, gens, carry_in, k - 1)
}

/// A four-bit carry-lookahead adder. It gives the sum bits and the
/// propagate and generate signals of the group; the carry out of the group
/// is `generate or (propagate and carry_in)`.
pub fn adder_4bit_cl(inps: Adder4BitInputs) -> (out: Adder4BitGPOutputs)
    ensures
        is_lookahead_adder(
            out.sum@,
            out.propagate,
            out.generate,
            inps.num1@,
            inps.num2@,
            inps.carry_in,
        ),
        forall|cells: Seq<bool>| #[trigger]
            levels(out.sum@, cells) == lookahead_sum(
                levels(inps.num1@, cells),
                levels(inps.num2@, cells),
                inps.carry_in.value(cells),
            ),
        forall|cells: Seq<bool>| #[trigger]
            out.propagate.value(cells) == propagates(
                propagate_bits(levels(inps.num1@, cells), levels(inps.num2@, cells)),
                0,
                4,
            ),
        forall|cells: Seq<bool>| #[trigger]
            out.generate.value(cells) == generated(
                propagate_bits(levels(inps.num1@, cells), levels(inps.num2@, cells)),
                generate_bits(levels(inps.num1@, cells), levels(inps.num2@, cells)),
                3,
            ),
        forall|cells: Seq<bool>|
            number(#[trigger] levels(out.sum@, cells)) == (number(levels(inps.num1@, cells))
                + number(levels(inps.num2@, cells)) + bit(inps.carry_in.value(cells))) % 16,
        forall|cells: Seq<bool>|
            #![trigger out.generate.value(cells)]
            (out.generate.value(cells) || (out.propagate.value(cells)
                && inps.carry_in.value(cells))) == (number(levels(inps.num1@, cells)) + number(
                levels(inps.num2@, cells),
            ) + bit(inps.carry_in.value(cells)) >= 16),
        forall|depth: nat| #[trigger]
            all_fit(inps.num1@, depth) && all_fit(inps.num2@, depth) && inps.carry_in.fits(depth)
                ==> all_fit(out.sum@, depth + 8) && out.propagate.fits(depth + 4)
                && out.generate.fits(depth + 5),
{
    let Adder4BitInputs { num1, num2, carry_in } = inps;
    let gens: [GateRef; 4] = [
        and(share(&num1[3]), share(&num2[3])),
        and(share(&num1[2]), share(&num2[2])),
        and(share(&num1[1]), share(&num2[1])),
        and(share(&num1[0]), share(&num2[0])),
    ];
    let props: [GateRef; 4] = [
        xor(share(&num1[3]), share(&num2[3])),
        xor(share(&num1[2]), share(&num2[2])),
        xor(share(&num1[1]), share(&num2[1])),
        xor(share(&num1[0]), share(&num2[0])),
    ];
    let unit = carry_lookahead_unit(
        CarryLookaheadUnitInputs { props: &props, gens: &gens, carry_in: share(&carry_in) },
    );
    let sum0 = xor(share(&props[0]), share(&carry_in));
    let sum1 = xor(share(&props[1]), share(&unit.carry_outs[0]));
    let sum2 = xor(share(&props[2]), share(&unit.carry_outs[1]));
    let sum3 = xor(share(&props[3]), share(&unit.carry_outs[2]));
    let out = Adder4BitGPOutputs {
        sum: [sum3, sum2, sum1, sum0],
        propagate: unit.propagate,
        generate: unit.generate,
    };
    proof {
        lemma_wired(
            out.sum@,
            out.propagate,
            out.generate,
            num1@,
            num2@,
            carry_in,
            props@,
            gens@,
            unit.carry_outs@,
        );
        assert forall|depth: nat| #[trigger]
            all_fit(num1@, depth) && all_fit(num2@, depth) && carry_in.fits(depth) implies all_fit(
            out.sum@,
            depth + 8,
        ) && out.propagate.fits(depth + 4) && out.generate.fits(depth + 5) by {
            lemma_fits_more(&*carry_in, depth, depth + 3);
            lemma_lookahead_adder_fits(
                out.sum@,
                out.propagate,
                out.generate,
                num1@,
                num2@,
                carry_in,
                depth,
                depth + 3,
            );
        }
        assert forall|cells: Seq<bool>|
            #![trigger levels(out.sum@, cells)]
            #![trigger unit.propagate.value(cells)]
            #![trigger unit.generate.value(cells)]
            levels(out.sum@, cells) == lookahead_sum(
                levels(num1@, cells),
                levels(num2@, cells),
                carry_in.value(cells),
            ) && unit.propagate.value(cells) == propagates(
                propagate_bits(levels(num1@, cells), levels(num2@, cells)),
                0,
                4,
            ) && unit.generate.value(cells) == generated(
                propagate_bits(levels(num1@, cells), levels(num2@, cells)),
                generate_bits(levels(num1@, cells), levels(num2@, cells)),
                3,
            ) && number(levels(out.sum@, cells)) == (number(levels(num1@, cells)) + number(
                levels(num2@, cells),
            ) + bit(carry_in.value(cells))) % 16 && (unit.generate.value(cells) || (
            unit.propagate.value(cells) && carry_in.value(cells))) == (number(
                levels(num1@, cells),
            ) + number(levels(num2@, cells)) + bit(carry_in.value(cells)) >= 16) by {
            let a = levels(num1@, cells);
            let b = levels(num2@, cells);
            let c = carry_in.value(cells);
            let p = levels(props@, cells);
            let g = levels(gens@, cells);
            assert(p =~= propagate_bits(a, b)) by {
                assert forall|k: int| 0 <= k < 4 implies p[k] == propagate_bits(a, b)[k] by {
                    assert(props[k].value(cells) == (num1[3 - k].value(cells) != num2[3
                        - k].value(cells)));
                }
            }
            assert(g =~= generate_bits(a, b)) by {
                assert forall|k: int| 0 <= k < 4 implies g[k] == generate_bits(a, b)[k] by {
                    assert(gens[k].value(cells) == (num1[3 - k].value(cells) && num2[3
                        - k].value(cells)));
                }
            }
            let expected = lookahead_sum(a, b, c);
            assert forall|i: int| 0 <= i < 4 implies levels(out.sum@, cells)[i] == expected[i] by {
                let k = 3 - i;
                assert(p[k] == (a[i] != b[i]));
                if k > 0 {
                    assert(unit.carry_outs[k - 1].value(cells) == lookahead_carry(p, g, c, k - 1));
                }
            }
            assert(levels(out.sum@, cells) =~= expected);
            lemma2_to64();
            lemma_lookahead_adds(a, b, c);
            assert(lookahead_into(a, b, c, 4) == (unit.generate.value(cells) || (
            unit.propagate.value(cells) && c)));
        }
    }
    out
}

/// The gates that `adder_4bit_cl` assembles are wired as a lookahead adder.
proof fn lemma_wired(
    sum: Seq<Rc<Gate>>,
    propagate: Rc<Gate>,
    generate: Rc<Gate>,
    num1: Seq<Rc<Gate>>,
    num2: Seq<Rc<Gate>>,
    carry_in: Rc<Gate>,
    props: Seq<Rc<Gate>>,
    gens: Seq<Rc<Gate>>,
    carries: Seq<Rc<Gate>>,
)
    requires
        sum.len() == 4,
        num1.len() == 4,
        num2.len() == 4,
        props.len() == 4,
        gens.len() == 4,
        carries.len() == 3,
        forall|k: int| 0 <= k < 4 ==> (#[trigger] props[k]).is_xor_of(num1[3 - k], num2[3 - k]),
        forall|k: int|
            0 <= k < 4 ==> (#[trigger] gens[k]).is_and_of(seq![num1[3 - k], num2[3 - k]]),
        forall|i: int| 0 <= i < 3 ==> is_carry(*#[trigger] carries[i], props, gens, carry_in, i),
        propagate.is_and_of(props),
        is_group_generate(*generate, props, gens, 3),
        sum[3].is_xor_of(props[0], carry_in),
        forall|k: int| 1 <= k < 4 ==> (#[trigger] sum[3 - k]).is_xor_of(props[k], carries[k - 1]),
    ensures
        is_lookahead_adder(sum, propagate, generate, num1, num2, carry_in),
{
    let found = Seq::new(4, |k: int| generate.operands()[3 - k].operands()[0]);
    assert(found =~= gens) by {
        assert forall|k: int| 0 <= k < 4 implies found[k] == gens[k] by {
            let d = 3 - k;
            let term = generate.operands()[d];
            assert(is_product(term, gens[3 - d], props, 3 - d + 1, 4));
            assert(term.operands()[0] == gens[k]);
        }
    }
    assert forall|k: int| 1 <= k < 4 implies (#[trigger] sum[3 - k]).is_xor_of(
        props[k],
        sum[3 - k].xor_second(),
    ) && is_carry(*sum[3 - k].xor_second(), props, gens, carry_in, k - 1) by {
        assert(sum[3 - k].is_xor_of(props[k], carries[k - 1]));
        assert(sum[3 - k].xor_second() == carries[k - 1]);
    }
}

/// A product is one level deeper than its factors.
pub proof fn lemma_product_fits(
    term: Rc<Gate>,
    lead: Rc<Gate>,
    props: Seq<Rc<Gate>>,
    lo: int,
    hi: int,
    levels: nat,
)
    requires
        is_product(term, lead, props, lo, hi),
        0 <= lo <= hi <= props.len(),
        lead.fits(levels),
        all_fit(props, levels),
    ensures
        term.fits(levels + 1),
{
    let factors = seq![lead] + props.subrange(lo, hi);
    assert forall|i: int| 0 <= i < factors.len() implies (#[trigger] factors[i]).fits(levels) by {
        if i > 0 {
            assert(factors[i] == props[lo + i - 1]);
        }
    }
    lemma_nary_of_fits(&*term, factors, levels);
}

/// A carry of the lookahead unit is two levels deeper than the propagate
/// and generate signals and the carry that it is made of, whatever its
/// position: one level for the products and one for their disjunction.
pub proof fn lemma_carry_fits(
    gate: &Gate,
    props: Seq<Rc<Gate>>,
    gens: Seq<Rc<Gate>>,
    carry_in: Rc<Gate>,
    i: int,
    levels: nat,
)
    requires
        0 <= i < props.len(),
        props.len() == gens.len(),
        is_carry(*gate, props, gens, carry_in, i) || is_group_generate(*gate, props, gens, i),
        all_fit(props, levels),
        all_fit(gens, levels),
        is_carry(*gate, props, gens, carry_in, i) ==> carry_in.fits(levels),
    ensures
        gate.fits(levels + 2),
{
    let terms = gate.operands();
    assert forall|d: int| 0 <= d < terms.len() implies (#[trigger] terms[d]).fits(levels + 1) by {
        if d <= i {
            assert(is_product(terms[d], gens[i - d], props, i - d + 1, i + 1));
            lemma_product_fits(terms[d], gens[i - d], props, i - d + 1, i + 1, levels);
        } else {
            lemma_product_fits(terms[d], carry_in, props, 0, i + 1, levels);
        }
    }
    lemma_nary_of_fits(gate, terms, levels + 1);
}

/// Every output of a four-bit lookahead adder is within a fixed number of
/// gate levels of the inputs, whatever its position. With operands at most
/// `levels` deep and a carry at most `carry_levels` deep, at least three
/// more, a sum bit is five levels above the carry, the propagate signal of
/// the group four above the operands and its generate signal five.
pub proof fn lemma_lookahead_adder_fits(
    sum: Seq<Rc<Gate>>,
    propagate: Rc<Gate>,
    generate: Rc<Gate>,
    num1: Seq<Rc<Gate>>,
    num2: Seq<Rc<Gate>>,
    carry_in: Rc<Gate>,
    levels: nat,
    carry_levels: nat,
)
    requires
        num1.len() == 4,
        num2.len() == 4,
        is_lookahead_adder(sum, propagate, generate, num1, num2, carry_in),
        all_fit(num1, levels),
        all_fit(num2, levels),
        carry_in.fits(carry_levels),
        levels + 3 <= carry_levels,
    ensures
        all_fit(sum, carry_levels + 5),
        propagate.fits(levels + 4),
        generate.fits(levels + 5),
{
    let props = propagate.operands();
    let gens = Seq::new(4, |k: int| generate.operands()[3 - k].operands()[0]);
    assert forall|k: int| 0 <= k < 4 implies (#[trigger] props[k]).fits(levels + 3) by {
        lemma_xor_fits(&*props[k], num1[3 - k], num2[3 - k], levels);
    }
    assert forall|k: int| 0 <= k < 4 implies (#[trigger] gens[k]).fits(levels + 3) by {
        let pair = seq![num1[3 - k], num2[3 - k]];
        assert(pair[0] == num1[3 - k] && pair[1] == num2[3 - k]);
        assert(all_fit(pair, levels));
        lemma_nary_of_fits(&*gens[k], pair, levels);
        lemma_fits_more(&*gens[k], levels + 1, levels + 3);
    }
    lemma_nary_of_fits(&*propagate, props, levels + 3);
    lemma_carry_fits(&*generate, props, gens, carry_in, 3, levels + 3);
    assert forall|k: int| 0 <= k < 4 implies (#[trigger] props[k]).fits(carry_levels) by {
        lemma_fits_more(&*props[k], levels + 3, carry_levels);
    }
    assert forall|k: int| 0 <= k < 4 implies (#[trigger] gens[k]).fits(carry_levels) by {
        lemma_fits_more(&*gens[k], levels + 3, carry_levels);
    }
    assert forall|i: int| 0 <= i < 4 implies (#[trigger] sum[i]).fits(carry_levels + 5) by {
        let k = 3 - i;
        lemma_fits_more(&*props[k], carry_levels, carry_levels + 2);
        if k == 0 {
            lemma_fits_more(&*carry_in, carry_levels, carry_levels + 2);
            lemma_xor_fits(&*sum[3], props[0], carry_in, carry_levels + 2);
        } else {
            let carry = sum[3 - k].xor_second();
            lemma_carry_fits(&*carry, props, gens, carry_in, k - 1, carry_levels);
            lemma_xor_fits(&*sum[3 - k], props[k], carry, carry_levels + 2);
        }
    }
}

/// Whether `sum` and `carry_out` are wired as the eight-bit adder of two
/// four-bit lookahead groups, with an input fixed low carried in. The low
/// group adds the low halves of `num1` and `num2`. The carry into the high
/// group and the carry out are lookahead carries one level up: each group
/// counts as one position, with the propagate and generate signals of the
/// group for those of the position.
pub open spec fn is_cascaded_adder(
    sum: Seq<Rc<Gate>>,
    carry_out: Rc<Gate>,
    num1: Seq<Rc<Gate>>,
    num2: Seq<Rc<Gate>>,
) -> bool {
    let terms = carry_out.operands();
    let g_hi = terms[0].operands()[0];
    let g_lo = terms[1].operands()[0];
    let p_hi = terms[1].operands()[1];
    let low = terms[2].operands()[0];
    let p_lo = terms[2].operands()[1];
    let middle = sum[3].xor_second();
    &&& sum.len() == 8
    &&& is_fixed(low, false)
    &&& is_lookahead_adder(
        sum.subrange(4, 8),
        p_lo,
        g_lo,
        num1.subrange(4, 8),
        num2.subrange(4, 8),
        low,
    )
    &&& is_carry(*middle, seq![p_lo], seq![g_lo], low, 0)
    &&& is_lookahead_adder(
        sum.subrange(0, 4),
        p_hi,
        g_hi,
        num1.subrange(0, 4),
        num2.subrange(0, 4),
        middle,
    )
    &&& is_carry(*carry_out, seq![p_lo, p_hi], seq![g_lo, g_hi], low, 1)
}

/// An eight-bit carry-lookahead adder with nothing carried in, made of two
/// four-bit groups whose carries are looked ahead one level up.
pub fn adder_8bit_cl(inps: General8BitInputs) -> (out: General8BitCarryOutputs)
    ensures
        is_cascaded_adder(out.out_sum@, out.carry_out, inps.num1@, inps.num2@),
        forall|cells: Seq<bool>|
            number(#[trigger] levels(out.out_sum@, cells)) + 256 * bit(out.carry_out.value(cells))
                == number(levels(inps.num1@, cells)) + number(levels(inps.num2@, cells)),
        forall|depth: nat| #[trigger]
            all_fit(inps.num1@, depth) && all_fit(inps.num2@, depth) ==> all_fit(
                out.out_sum@,
                depth + 12,
            ) && out.carry_out.fits(depth + 7),
{
    let General8BitInputs { num1, num2 } = inps;
    let low = constant(false);
    let a_lo = [share(&num1[4]), share(&num1[5]), share(&num1[6]), share(&num1[7])];
    let b_lo = [share(&num2[4]), share(&num2[5]), share(&num2[6]), share(&num2[7])];
    let a_hi = [share(&num1[0]), share(&num1[1]), share(&num1[2]), share(&num1[3])];
    let b_hi = [share(&num2[0]), share(&num2[1]), share(&num2[2]), share(&num2[3])];
    let lo = adder_4bit_cl(Adder4BitInputs { num1: &a_lo, num2: &b_lo, carry_in: share(&low) });
    let props_lo = [share(&lo.propagate)];
    let gens_lo = [share(&lo.generate)];
    let middle = carry_gate(props_lo.as_slice(), gens_lo.as_slice(), &low, 0);
    let hi = adder_4bit_cl(
        Adder4BitInputs { num1: &a_hi, num2: &b_hi, carry_in: share(&middle) },
    );
    let props = [share(&lo.propagate), share(&hi.propagate)];
    let gens = [share(&lo.generate), share(&hi.generate)];
    let carry_out = carry_gate(props.as_slice(), gens.as_slice(), &low, 1);
    let out_sum = [
        share(&hi.sum[0]),
        share(&hi.sum[1]),
        share(&hi.sum[2]),
        share(&hi.sum[3]),
        share(&lo.sum[0]),
        share(&lo.sum[1]),
        share(&lo.sum[2]),
        share(&lo.sum[3]),
    ];
    proof {
        assert(a_lo@ =~= num1@.subrange(4, 8));
        assert(b_lo@ =~= num2@.subrange(4, 8));
        assert(a_hi@ =~= num1@.subrange(0, 4));
        assert(b_hi@ =~= num2@.subrange(0, 4));
        assert(out_sum@.subrange(4, 8) =~= lo.sum@);
        assert(out_sum@.subrange(0, 4) =~= hi.sum@);
        assert(props_lo@ =~= seq![lo.propagate]);
        assert(gens_lo@ =~= seq![lo.generate]);
        assert(props@ =~= seq![lo.propagate, hi.propagate]);
        assert(gens@ =~= seq![lo.generate, hi.generate]);
        lemma_cascade_wired(
            out_sum@,
            carry_out,
            num1@,
            num2@,
            low,
            middle,
            lo.propagate,
            lo.generate,
            hi.propagate,
            hi.generate,
        );
        assert forall|cells: Seq<bool>|
            number(#[trigger] levels(out_sum@, cells)) + 256 * bit(carry_out.value(cells))
                == number(levels(num1@, cells)) + number(levels(num2@, cells)) by {
            let a = levels(num1@, cells);
            let b = levels(num2@, cells);
            let s = levels(out_sum@, cells);
            let m = middle.value(cells);
            assert(levels(a_lo@, cells) =~= a.subrange(4, 8));
            assert(levels(b_lo@, cells) =~= b.subrange(4, 8));
            assert(levels(a_hi@, cells) =~= a.subrange(0, 4));
            assert(levels(b_hi@, cells) =~= b.subrange(0, 4));
            assert(levels(lo.sum@, cells) =~= s.subrange(4, 8));
            assert(levels(hi.sum@, cells) =~= s.subrange(0, 4));
            assert(!low.value(cells));
            assert(m == lo.generate.value(cells)) by {
                let p_lo = levels(props_lo@, cells);
                let g_lo = levels(gens_lo@, cells);
                lemma_lookahead_step(p_lo, g_lo, false, 0);
                assert(g_lo[0] == lo.generate.value(cells));
            }
            assert(carry_out.value(cells) == (hi.generate.value(cells) || (hi.propagate.value(
                cells,
            ) && m))) by {
                let p = levels(props@, cells);
                let g = levels(gens@, cells);
                lemma_lookahead_step(p, g, false, 0);
                lemma_lookahead_step(p, g, false, 1);
                assert(p[0] == lo.propagate.value(cells) && g[0] == lo.generate.value(cells));
                assert(p[1] == hi.propagate.value(cells) && g[1] == hi.generate.value(cells));
            }
            lemma_cascade_adds(a, b, s, m, carry_out.value(cells));
        }
        assert forall|depth: nat| #[trigger]
            all_fit(num1@, depth) && all_fit(num2@, depth) implies all_fit(out_sum@, depth + 12)
            && carry_out.fits(depth + 7) by {
            lemma_cascade_fits(out_sum@, carry_out, num1@, num2@, depth);
        }
    }
    General8BitCarryOutputs { out_sum, carry_out }
}

/// The gates that `adder_8bit_cl` assembles are wired as a cascaded adder.
proof fn lemma_cascade_wired(
    sum: Seq<Rc<Gate>>,
    carry_out: Rc<Gate>,
    num1: Seq<Rc<Gate>>,
    num2: Seq<Rc<Gate>>,
    low: Rc<Gate>,
    middle: Rc<Gate>,
    p_lo: Rc<Gate>,
    g_lo: Rc<Gate>,
    p_hi: Rc<Gate>,
    g_hi: Rc<Gate>,
)
    requires
        sum.len() == 8,
        is_fixed(low, false),
        is_lookahead_adder(
            sum.subrange(4, 8),
            p_lo,
            g_lo,
            num1.subrange(4, 8),
            num2.subrange(4, 8),
            low,
        ),
        is_carry(*middle, seq![p_lo], seq![g_lo], low, 0),
        is_lookahead_adder(
            sum.subrange(0, 4),
            p_hi,
            g_hi,
            num1.subrange(0, 4),
            num2.subrange(0, 4),
            middle,
        ),
        is_carry(*carry_out, seq![p_lo, p_hi], seq![g_lo, g_hi], low, 1),
    ensures
        is_cascaded_adder(sum, carry_out, num1, num2),
{
    let props = seq![p_lo, p_hi];
    let gens = seq![g_lo, g_hi];
    let terms = carry_out.operands();
    assert(is_product(terms[0], gens[1 - 0], props, 1 - 0 + 1, 2));
    assert(is_product(terms[1], gens[1 - 1], props, 1 - 1 + 1, 2));
    assert(is_product(terms[2], low, props, 0, 2));
    assert(terms[0].operands()[0] == g_hi);
    assert(terms[1].operands()[0] == g_lo);
    assert(terms[1].operands()[1] == p_hi);
    assert(terms[2].operands()[0] == low);
    assert(terms[2].operands()[1] == p_lo);
    assert(sum.subrange(0, 4)[3] == sum[3]);
    assert(sum[3].xor_second() == middle);
}

/// Two four-bit sums make an eight-bit sum when the carry out of the low
/// one goes into the high one.
proof fn lemma_cascade_adds(a: Seq<bool>, b: Seq<bool>, s: Seq<bool>, middle: bool, carry: bool)
    requires
        a.len() == 8,
        b.len() == 8,
        s.len() == 8,
        number(s.subrange(4, 8)) == (number(a.subrange(4, 8)) + number(b.subrange(4, 8))) % 16,
        middle == (number(a.subrange(4, 8)) + number(b.subrange(4, 8)) >= 16),
        number(s.subrange(0, 4)) == (number(a.subrange(0, 4)) + number(b.subrange(0, 4)) + bit(
            middle,
        )) % 16,
        carry == (number(a.subrange(0, 4)) + number(b.subrange(0, 4)) + bit(middle) >= 16),
    ensures
        number(s) + 256 * bit(carry) == number(a) + number(b),
{
    assert(a =~= a.subrange(0, 4) + a.subrange(4, 8));
    assert(b =~= b.subrange(0, 4) + b.subrange(4, 8));
    assert(s =~= s.subrange(0, 4) + s.subrange(4, 8));
    lemma_number_concat(a.subrange(0, 4), a.subrange(4, 8));
    lemma_number_concat(b.subrange(0, 4), b.subrange(4, 8));
    lemma_number_concat(s.subrange(0, 4), s.subrange(4, 8));
    lemma_number_bound(a.subrange(4, 8));
    lemma_number_bound(b.subrange(4, 8));
    lemma_number_bound(a.subrange(0, 4));
    lemma_number_bound(b.subrange(0, 4));
    lemma2_to64();
}

/// An eight-bit cascaded adder whose operands are at most `levels` deep
/// has its sum bits within twelve gate levels of them and its carry out
/// within seven.
pub proof fn lemma_cascade_fits(
    sum: Seq<Rc<Gate>>,
    carry_out: Rc<Gate>,
    num1: Seq<Rc<Gate>>,
    num2: Seq<Rc<Gate>>,
    levels: nat,
)
    requires
        num1.len() == 8,
        num2.len() == 8,
        is_cascaded_adder(sum, carry_out, num1, num2),
        all_fit(num1, levels),
        all_fit(num2, levels),
    ensures
        all_fit(sum, levels + 12),
        carry_out.fits(levels + 7),
{
    let terms = carry_out.operands();
    let g_hi = terms[0].operands()[0];
    let g_lo = terms[1].operands()[0];
    let p_hi = terms[1].operands()[1];
    let low = terms[2].operands()[0];
    let p_lo = terms[2].operands()[1];
    let middle = sum[3].xor_second();
    let a_lo = num1.subrange(4, 8);
    let b_lo = num2.subrange(4, 8);
    let a_hi = num1.subrange(0, 4);
    let b_hi = num2.subrange(0, 4);
    assert(all_fit(a_lo, levels)) by {
        assert forall|i: int| 0 <= i < 4 implies (#[trigger] a_lo[i]).fits(levels) by {
            assert(num1[i + 4].fits(levels));
        }
    }
    assert(all_fit(b_lo, levels)) by {
        assert forall|i: int| 0 <= i < 4 implies (#[trigger] b_lo[i]).fits(levels) by {
            assert(num2[i + 4].fits(levels));
        }
    }
    assert(all_fit(a_hi, levels)) by {
        assert forall|i: int| 0 <= i < 4 implies (#[trigger] a_hi[i]).fits(levels) by {
            assert(num1[i].fits(levels));
        }
    }
    assert(all_fit(b_hi, levels)) by {
        assert forall|i: int| 0 <= i < 4 implies (#[trigger] b_hi[i]).fits(levels) by {
            assert(num2[i].fits(levels));
        }
    }
    let props_lo = seq![p_lo];
    let gens_lo = seq![g_lo];
    let props = seq![p_lo, p_hi];
    let gens = seq![g_lo, g_hi];
    lemma_lookahead_adder_fits(sum.subrange(4, 8), p_lo, g_lo, a_lo, b_lo, low, levels, levels + 3);
    lemma_fits_more(&*p_lo, levels + 4, levels + 5);
    assert(all_fit(props_lo, levels + 5)) by {
        assert(props_lo[0] == p_lo);
    }
    assert(all_fit(gens_lo, levels + 5)) by {
        assert(gens_lo[0] == g_lo);
    }
    lemma_carry_fits(&*middle, props_lo, gens_lo, low, 0, levels + 5);
    lemma_lookahead_adder_fits(
        sum.subrange(0, 4),
        p_hi,
        g_hi,
        a_hi,
        b_hi,
        middle,
        levels,
        levels + 7,
    );
    lemma_fits_more(&*p_hi, levels + 4, levels + 5);
    assert(all_fit(props, levels + 5)) by {
        assert(props[0] == p_lo && props[1] == p_hi);
    }
    assert(all_fit(gens, levels + 5)) by {
        assert(gens[0] == g_lo && gens[1] == g_hi);
    }
    lemma_carry_fits(&*carry_out, props, gens, low, 1, levels + 5);
    assert forall|i: int| 0 <= i < 8 implies (#[trigger] sum[i]).fits(levels + 12) by {
        if i < 4 {
            assert(sum[i] == sum.subrange(0, 4)[i]);
        } else {
            assert(sum[i] == sum.subrange(4, 8)[i - 4]);
            lemma_fits_more(&*sum[i], levels + 8, levels + 12);
        }
    }
}

} // verus!
