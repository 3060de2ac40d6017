//! Boolean gates and their evaluation.
//!
//! A gate is a node of a boolean expression graph: an input, a negation, or
//! an n-ary conjunction or disjunction of other gates. Operands are held
//! behind `Rc`, so one gate can feed any number of consumers.
//!
//! The level of an input is either fixed at construction, or read
//! from a cell of a bank that the caller owns and may rewrite between two
//! evaluations. A bank is a sequence of levels and a cell is an index into
//! it; a cell that the bank does not hold reads low.

use std::rc::Rc;
use vstd::prelude::*;

verus! {

/// Where an input gate takes its level from.
#[derive(Clone, Copy, Debug, PartialEq, Eq, Structural)]
pub enum Signal {
    /// A level of its own, set at construction.
    Fixed(bool),
    /// The level of a cell in the caller's bank.
    Shared(usize),
}

/// A node of a gate graph.
#[derive(Debug)]
pub enum Gate {
    Input(Signal),
    Not(Rc<Gate>),
    And(Vec<Rc<Gate>>),
    Or(Vec<Rc<Gate>>),
}

/// A shared handle on a gate.
pub type GateRef = Rc<Gate>;

/// `Rc::clone`: another pointer to the same allocation, so what it points
/// to is what `gate` points to.
#[verifier::external_body]
pub(crate) fn share(gate: &Rc<Gate>) -> (same: Rc<Gate>)
    ensures
        same == *gate,
{
    Rc::clone(gate)
}

impl Signal {
    /// The level of this signal under the bank `cells`.
    pub open spec fn level(&self, cells: Seq<bool>) -> bool {
        match self {
            Signal::Fixed(level) => *level,
            Signal::Shared(cell) => *cell < cells.len() && cells[*cell as int],
        }
    }

    /// Reads the level of this signal from the bank `cells`.
    pub fn read(&self, cells: &Vec<bool>) -> (out: bool)
        ensures
            out == self.level(cells@),
    {
        match self {
            Signal::Fixed(level) => *level,
            Signal::Shared(cell) => *cell < cells.len() && cells[*cell],
        }
    }
}

impl Gate {
    /// The boolean that this gate computes under the bank `cells`: the fold
    /// of its operation over its operands, so an empty conjunction is high
    /// and an empty disjunction is low.
    pub open spec fn value(&self, cells: Seq<bool>) -> bool
        decreases self,
    {
        match self {
            Gate::Input(signal) => signal.level(cells),
            Gate::Not(inner) => !inner.value(cells),
            Gate::And(inner) => forall|i: int|
                0 <= i < inner.len() ==> (#[trigger] inner[i]).value(cells),
            Gate::Or(inner) => exists|i: int|
                0 <= i < inner.len() && (#[trigger] inner[i]).value(cells),
        }
    }

    /// The operands of this gate, in order.
    pub open spec fn operands(&self) -> Seq<Rc<Gate>> {
        match self {
            Gate::Input(_) => Seq::empty(),
            Gate::Not(inner) => seq![*inner],
            Gate::And(inner) => inner@,
            Gate::Or(inner) => inner@,
        }
    }

    /// Whether the level of `cell` can reach this gate: some input below it
    /// is wired to that cell.
    pub open spec fn reads(&self, cell: usize) -> bool
        decreases self,
    {
        match self {
            Gate::Input(signal) => *signal == Signal::Shared(cell),
            Gate::Not(inner) => inner.reads(cell),
            Gate::And(inner) => exists|i: int|
                0 <= i < inner.len() && (#[trigger] inner[i]).reads(cell),
            Gate::Or(inner) => exists|i: int|
                0 <= i < inner.len() && (#[trigger] inner[i]).reads(cell),
        }
    }

    /// Whether this gate is at most `levels` deep: no path from its output
    /// down to an input passes more than `levels` gates, the inputs not
    /// counted.
    pub open spec fn fits(&self, levels: nat) -> bool
        decreases self,
    {
        match self {
            Gate::Input(_) => true,
            Gate::Not(inner) => levels > 0 && inner.fits((levels - 1) as nat),
            Gate::And(inner) => levels > 0 && forall|i: int|
                0 <= i < inner.len() ==> (#[trigger] inner[i]).fits((levels - 1) as nat),
            Gate::Or(inner) => levels > 0 && forall|i: int|
                0 <= i < inner.len() ==> (#[trigger] inner[i]).fits((levels - 1) as nat),
        }
    }
}

/// Whether every gate of `gates` is at most `levels` deep.
pub open spec fn all_fit(gates: Seq<Rc<Gate>>, levels: nat) -> bool {
    forall|i: int| 0 <= i < gates.len() ==> (#[trigger] gates[i]).fits(levels)
}

/// Whether `gate` is an input fixed at `level`.
pub open spec fn is_fixed(gate: Rc<Gate>, level: bool) -> bool {
    *gate == Gate::Input(Signal::Fixed(level))
}

/// Whether every gate of `gates` is high under `cells`.
pub open spec fn all_high(gates: Seq<Rc<Gate>>, cells: Seq<bool>) -> bool {
    forall|i: int| 0 <= i < gates.len() ==> (#[trigger] gates[i]).value(cells)
}

/// Whether some gate of `gates` is high under `cells`.
pub open spec fn any_high(gates: Seq<Rc<Gate>>, cells: Seq<bool>) -> bool {
    exists|i: int| 0 <= i < gates.len() && (#[trigger] gates[i]).value(cells)
}

/// Whether some gate of `gates` reads `cell`.
pub open spec fn any_reads(gates: Seq<Rc<Gate>>, cell: usize) -> bool {
    exists|i: int| 0 <= i < gates.len() && (#[trigger] gates[i]).reads(cell)
}

/// A conjunction is high exactly when each of its operands is.
pub proof fn lemma_and_value(gate: &Gate, cells: Seq<bool>)
    requires
        gate is And,
    ensures
        gate.value(cells) == all_high(gate.operands(), cells),
{
    let inner = gate->And_0;
    assert(gate.value(cells) <==> forall|i: int|
        0 <= i < inner.len() ==> (#[trigger] inner[i]).value(cells));
    assert(forall|i: int| 0 <= i < inner.len() ==> inner[i] == #[trigger] gate.operands()[i]);
}

/// A disjunction is high exactly when one of its operands is.
pub proof fn lemma_or_value(gate: &Gate, cells: Seq<bool>)
    requires
        gate is Or,
    ensures
        gate.value(cells) == any_high(gate.operands(), cells),
{
    let inner = gate->Or_0;
    assert(gate.value(cells) <==> exists|i: int|
        0 <= i < inner.len() && (#[trigger] inner[i]).value(cells));
    assert(forall|i: int| 0 <= i < inner.len() ==> inner[i] == #[trigger] gate.operands()[i]);
}

/// A conjunction or disjunction reads a cell exactly when one of its
/// operands does.
pub proof fn lemma_nary_reads(gate: &Gate, cell: usize)
    requires
        gate is And || gate is Or,
    ensures
        gate.reads(cell) == any_reads(gate.operands(), cell),
{
    if gate is And {
        let inner = gate->And_0;
        assert(gate.reads(cell) <==> exists|i: int|
            0 <= i < inner.len() && (#[trigger] inner[i]).reads(cell));
        assert(forall|i: int| 0 <= i < inner.len() ==> inner[i] == #[trigger] gate.operands()[i]);
    } else {
        let inner = gate->Or_0;
        assert(gate.reads(cell) <==> exists|i: int|
            0 <= i < inner.len() && (#[trigger] inner[i]).reads(cell));
        assert(forall|i: int| 0 <= i < inner.len() ==> inner[i] == #[trigger] gate.operands()[i]);
    }
}

/// A conjunction or disjunction is one level deeper than the deepest of
/// its operands.
pub proof fn lemma_nary_fits(gate: &Gate, levels: nat)
    requires
        gate is And || gate is Or,
    ensures
        gate.fits(levels) == (levels > 0 && all_fit(gate.operands(), (levels - 1) as nat)),
{
    if gate is And {
        let inner = gate->And_0;
        assert(gate.fits(levels) <==> levels > 0 && forall|i: int|
            0 <= i < inner.len() ==> (#[trigger] inner[i]).fits((levels - 1) as nat));
        assert(forall|i: int| 0 <= i < inner.len() ==> inner[i] == #[trigger] gate.operands()[i]);
    } else {
        let inner = gate->Or_0;
        assert(gate.fits(levels) <==> levels > 0 && forall|i: int|
            0 <= i < inner.len() ==> (#[trigger] inner[i]).fits((levels - 1) as nat));
        assert(forall|i: int| 0 <= i < inner.len() ==> inner[i] == #[trigger] gate.operands()[i]);
    }
}

/// A gate that is at most `levels` deep is at most `more` deep for every
/// `more` above `levels`.
pub proof fn lemma_fits_more(gate: &Gate, levels: nat, more: nat)
    requires
        gate.fits(levels),
        levels <= more,
    ensures
        gate.fits(more),
    decreases gate, 1int,
{
    match gate {
        Gate::Input(_) => {},
        Gate::Not(inner) => {
            lemma_fits_more(&**inner, (levels - 1) as nat, (more - 1) as nat);
        },
        _ => {
            lemma_nary_fits(gate, levels);
            lemma_nary_fits(gate, more);
            assert forall|i: int| 0 <= i < gate.operands().len() implies (
            #[trigger] gate.operands()[i]).fits((more - 1) as nat) by {
                lemma_operand_fits_more(gate, i, levels, more);
            }
        },
    }
}

/// The step of `lemma_fits_more` for one operand of a conjunction or
/// disjunction.
proof fn lemma_operand_fits_more(gate: &Gate, i: int, levels: nat, more: nat)
    requires
        gate is And || gate is Or,
        0 <= i < gate.operands().len(),
        gate.fits(levels),
        levels <= more,
    ensures
        gate.operands()[i].fits((more - 1) as nat),
    decreases gate, 0int,
{
    let operand = gate.operands()[i];
    lemma_nary_fits(gate, levels);
    assert(operand.fits((levels - 1) as nat));
    if gate is And {
        assert(decreases_to!(gate => gate->And_0));
        assert(decreases_to!(gate->And_0 => gate->And_0[i]));
    } else {
        assert(decreases_to!(gate => gate->Or_0));
        assert(decreases_to!(gate->Or_0 => gate->Or_0[i]));
    }
    lemma_fits_more(&*operand, (levels - 1) as nat, (more - 1) as nat);
}

/// A conjunction or disjunction of exactly `operands` is one level deeper
/// than they are.
pub proof fn lemma_nary_of_fits(gate: &Gate, operands: Seq<Rc<Gate>>, levels: nat)
    requires
        gate.is_and_of(operands) || gate.is_or_of(operands),
        all_fit(operands, levels),
    ensures
        gate.fits(levels + 1),
{
    lemma_nary_fits(gate, levels + 1);
}

/// The two-level expansion of the exclusive or is three levels deeper than
/// its operands: a negation, a conjunction and the disjunction.
pub proof fn lemma_xor_fits(gate: &Gate, a: Rc<Gate>, b: Rc<Gate>, levels: nat)
    requires
        gate.is_xor_of(a, b),
        a.fits(levels),
        b.fits(levels),
    ensures
        gate.fits(levels + 3),
{
    let terms = gate.operands();
    lemma_fits_more(&*a, levels, levels + 1);
    lemma_fits_more(&*b, levels, levels + 1);
    assert(terms[0].operands()[0].fits(levels + 1));
    assert(terms[1].operands()[1].fits(levels + 1));
    assert(all_fit(terms[0].operands(), levels + 1));
    assert(all_fit(terms[1].operands(), levels + 1));
    lemma_nary_fits(&*terms[0], levels + 2);
    lemma_nary_fits(&*terms[1], levels + 2);
    assert(all_fit(terms, levels + 2));
    lemma_nary_fits(gate, levels + 3);
}

/// `not(and(a, b))` is two levels deeper than its operands.
pub proof fn lemma_nand_fits(gate: &Gate, a: Rc<Gate>, b: Rc<Gate>, levels: nat)
    requires
        gate.is_nand_of(a, b),
        a.fits(levels),
        b.fits(levels),
    ensures
        gate.fits(levels + 2),
{
    let inner = gate->Not_0;
    assert(all_fit(inner.operands(), levels)) by {
        assert(inner.operands()[0] == a && inner.operands()[1] == b);
    }
    lemma_nary_fits(&*inner, levels + 1);
}

/// A gate's level depends on nothing but the cells it reads: under two
/// banks that agree on each of those cells it has the same level. With the
/// bank unchanged, evaluating again gives the same level.
pub proof fn lemma_value_frame(gate: &Gate, before: Seq<bool>, after: Seq<bool>)
    requires
        forall|cell: usize| #[trigger]
            gate.reads(cell) ==> Signal::Shared(cell).level(before) == Signal::Shared(cell).level(
                after,
            ),
    ensures
        gate.value(before) == gate.value(after),
    decreases gate, 1int,
{
    match gate {
        Gate::Input(signal) => {
            if let Signal::Shared(cell) = signal {
                assert(gate.reads(*cell));
            }
        },
        Gate::Not(inner) => {
            assert forall|cell: usize| #[trigger] inner.reads(cell) implies Signal::Shared(
                cell,
            ).level(before) == Signal::Shared(cell).level(after) by {
                assert(gate.reads(cell));
            }
            lemma_value_frame(&**inner, before, after);
        },
        Gate::And(inner) => {
            assert forall|i: int| 0 <= i < inner.len() implies (#[trigger] inner[i]).value(before)
                == inner[i].value(after) by {
                lemma_operand_frame(gate, i, before, after);
            }
            lemma_and_value(gate, before);
            lemma_and_value(gate, after);
        },
        Gate::Or(inner) => {
            assert forall|i: int| 0 <= i < inner.len() implies (#[trigger] inner[i]).value(before)
                == inner[i].value(after) by {
                lemma_operand_frame(gate, i, before, after);
            }
            lemma_or_value(gate, before);
            lemma_or_value(gate, after);
            if any_high(gate.operands(), before) {
                let i = choose|i: int|
                    0 <= i < inner.len() && (#[trigger] gate.operands()[i]).value(before);
                assert(inner[i].value(after));
            }
            if any_high(gate.operands(), after) {
                let i = choose|i: int|
                    0 <= i < inner.len() && (#[trigger] gate.operands()[i]).value(after);
                assert(inner[i].value(before));
            }
        },
    }
}

/// The step of `lemma_value_frame` for one operand of a conjunction or
/// disjunction.
proof fn lemma_operand_frame(gate: &Gate, i: int, before: Seq<bool>, after: Seq<bool>)
    requires
        gate is And || gate is Or,
        0 <= i < gate.operands().len(),
        forall|cell: usize| #[trigger]
            gate.reads(cell) ==> Signal::Shared(cell).level(before) == Signal::Shared(cell).level(
                after,
            ),
    ensures
        gate.operands()[i].value(before) == gate.operands()[i].value(after),
    decreases gate, 0int,
{
    let operand = gate.operands()[i];
    assert forall|cell: usize| #[trigger] operand.reads(cell) implies Signal::Shared(cell).level(
        before,
    ) == Signal::Shared(cell).level(after) by {
        lemma_nary_reads(gate, cell);
        assert(gate.reads(cell));
    }
    if gate is And {
        assert(decreases_to!(gate => gate->And_0));
        assert(decreases_to!(gate->And_0 => gate->And_0[i]));
    } else {
        assert(decreases_to!(gate => gate->Or_0));
        assert(decreases_to!(gate->Or_0 => gate->Or_0[i]));
    }
    lemma_value_frame(&*operand, before, after);
}

/// Rewriting one cell leaves every gate that does not read it at the level
/// it had: only gates that read the cell can change.
pub proof fn lemma_rewrite_unread_cell(gate: &Gate, cells: Seq<bool>, cell: usize, level: bool)
    requires
        cell < cells.len(),
        !gate.reads(cell),
    ensures
        gate.value(cells.update(cell as int, level)) == gate.value(cells),
{
    let after = cells.update(cell as int, level);
    assert forall|other: usize| #[trigger] gate.reads(other) implies Signal::Shared(other).level(
        cells,
    ) == Signal::Shared(other).level(after) by {
        assert(other != cell);
    }
    lemma_value_frame(gate, cells, after);
}

impl Gate {
    /// Whether this gate is the conjunction of exactly `operands`.
    pub open spec fn is_and_of(&self, operands: Seq<Rc<Gate>>) -> bool {
        self is And && self.operands() == operands
    }

    /// Whether this gate is the disjunction of exactly `operands`.
    pub open spec fn is_or_of(&self, operands: Seq<Rc<Gate>>) -> bool {
        self is Or && self.operands() == operands
    }

    /// Whether this gate is `not(and(a, b))`.
    pub open spec fn is_nand_of(&self, a: Rc<Gate>, b: Rc<Gate>) -> bool {
        self is Not && self->Not_0.is_and_of(seq![a, b])
    }

    /// Whether this gate is the two-level expansion
    /// `or(and(not(a), b), and(a, not(b)))`.
    pub open spec fn is_xor_of(&self, a: Rc<Gate>, b: Rc<Gate>) -> bool {
        let terms = self.operands();
        &&& self is Or
        &&& terms.len() == 2
        &&& *terms[0] is And
        &&& terms[0].operands().len() == 2
        &&& *terms[0].operands()[0] == Gate::Not(a)
        &&& terms[0].operands()[1] == b
        &&& *terms[1] is And
        &&& terms[1].operands().len() == 2
        &&& terms[1].operands()[0] == a
        &&& *terms[1].operands()[1] == Gate::Not(b)
    }

    /// The first operand of the exclusive or that this gate is, if it is
    /// one.
    pub open spec fn xor_first(&self) -> Rc<Gate> {
        self.operands()[1].operands()[0]
    }

    /// The second operand of the exclusive or that this gate is, if it is
    /// one.
    pub open spec fn xor_second(&self) -> Rc<Gate> {
        self.operands()[0].operands()[1]
    }

    /// An input fixed at `state`.
    pub fn constant(state: bool) -> (gate: Gate)
        ensures
            gate == Gate::Input(Signal::Fixed(state)),
    {
        Gate::Input(Signal::Fixed(state))
    }

    /// An input wired to `cell` of the caller's bank.
    pub fn input(cell: usize) -> (gate: Gate)
        ensures
            gate == Gate::Input(Signal::Shared(cell)),
    {
        Gate::Input(Signal::Shared(cell))
    }

    /// An input with a level of its own, initially `state`.
    pub fn input_empty(state: bool) -> (gate: Gate)
        ensures
            gate == Gate::Input(Signal::Fixed(state)),
    {
        Gate::Input(Signal::Fixed(state))
    }

    /// The negation of `state`.
    pub fn not(state: Rc<Gate>) -> (gate: Gate)
        ensures
            gate == Gate::Not(state),
    {
        Gate::Not(state)
    }

    /// The conjunction of two gates.
    pub fn and(state1: Rc<Gate>, state2: Rc<Gate>) -> (gate: Gate)
        ensures
            gate.is_and_of(seq![state1, state2]),
            forall|cells: Seq<bool>| #[trigger]
                gate.value(cells) == (state1.value(cells) && state2.value(cells)),
    {
        let mut cont = Vec::new();
        cont.push(state1);
        cont.push(state2);
        let gate = Gate::And(cont);
        proof {
            assert(gate.operands() =~= seq![state1, state2]);
            assert forall|cells: Seq<bool>| #[trigger]
                gate.value(cells) == (state1.value(cells) && state2.value(cells)) by {
                lemma_pair_high(state1, state2, cells);
                lemma_and_value(&gate, cells);
            }
        }
        gate
    }

    /// The conjunction of no operands, which is high.
    pub fn empty_and() -> (gate: Gate)
        ensures
            gate.is_and_of(Seq::empty()),
            forall|cells: Seq<bool>| #[trigger] gate.value(cells),
    {
        let gate = Gate::And(Vec::new());
        proof {
            assert(gate.operands() =~= Seq::empty());
            assert forall|cells: Seq<bool>| #[trigger] gate.value(cells) by {
                lemma_and_value(&gate, cells);
            }
        }
        gate
    }

    /// The disjunction of two gates.
    pub fn or(state1: Rc<Gate>, state2: Rc<Gate>) -> (gate: Gate)
        ensures
            gate.is_or_of(seq![state1, state2]),
            forall|cells: Seq<bool>| #[trigger]
                gate.value(cells) == (state1.value(cells) || state2.value(cells)),
    {
        let mut cont = Vec::new();
        cont.push(state1);
        cont.push(state2);
        let gate = Gate::Or(cont);
        proof {
            assert(gate.operands() =~= seq![state1, state2]);
            assert forall|cells: Seq<bool>| #[trigger]
                gate.value(cells) == (state1.value(cells) || state2.value(cells)) by {
                lemma_pair_high(state1, state2, cells);
                lemma_or_value(&gate, cells);
            }
        }
        gate
    }

    /// The disjunction of no operands, which is low.
    pub fn empty_or() -> (gate: Gate)
        ensures
            gate.is_or_of(Seq::empty()),
            forall|cells: Seq<bool>| !#[trigger] gate.value(cells),
    {
        let gate = Gate::Or(Vec::new());
        proof {
            assert(gate.operands() =~= Seq::empty());
            assert forall|cells: Seq<bool>| !#[trigger] gate.value(cells) by {
                lemma_or_value(&gate, cells);
            }
        }
        gate
    }

    /// `not(and(state1, state2))`.
    pub fn nand(state1: Rc<Gate>, state2: Rc<Gate>) -> (gate: Gate)
        ensures
            gate.is_nand_of(state1, state2),
            forall|cells: Seq<bool>| #[trigger]
                gate.value(cells) == !(state1.value(cells) && state2.value(cells)),
    {
        let inner = Rc::new(Gate::and(state1, state2));
        let gate = Gate::Not(inner);
        proof {
            assert forall|cells: Seq<bool>| #[trigger]
                gate.value(cells) == !(state1.value(cells) && state2.value(cells)) by {
                assert(gate.value(cells) == !inner.value(cells));
            }
        }
        gate
    }

    /// The exclusive or of two gates, as the two-level expansion
    /// `or(and(not(state1), state2), and(state1, not(state2)))`.
    pub fn xor(state1: Rc<Gate>, state2: Rc<Gate>) -> (gate: Gate)
        ensures
            gate.is_xor_of(state1, state2),
            forall|cells: Seq<bool>| #[trigger]
                gate.value(cells) == ((state1.value(cells) || state2.value(cells)) && !(
                state1.value(cells) && state2.value(cells))),
    {
        let left = Rc::new(Gate::and(Rc::new(Gate::not(share(&state1))), share(&state2)));
        let right = Rc::new(Gate::and(state1, Rc::new(Gate::not(state2))));
        Gate::or(left, right)
    }

    /// Gives this gate the operand `state`: a negation takes it in place of
    /// the one it had, a conjunction or disjunction takes it as one more.
    /// An input has no operand to give.
    pub fn apply(self, state: Rc<Gate>) -> (gate: Gate)
        requires
            !(self is Input),
        ensures
            self is Not ==> gate == Gate::Not(state),
            self is And ==> gate.is_and_of(self.operands().push(state)),
            self is Or ==> gate.is_or_of(self.operands().push(state)),
            forall|cells: Seq<bool>| #[trigger]
                gate.value(cells) == match self {
                    Gate::And(_) => self.value(cells) && state.value(cells),
                    Gate::Or(_) => self.value(cells) || state.value(cells),
                    _ => !state.value(cells),
                },
    {
        match self {
            Gate::Input(signal) => Gate::Input(signal),
            Gate::Not(_) => Gate::Not(state),
            Gate::And(mut inner) => {
                inner.push(state);
                let gate = Gate::And(inner);
                proof {
                    assert forall|cells: Seq<bool>| #[trigger]
                        gate.value(cells) == (self.value(cells) && state.value(cells)) by {
                        lemma_and_value(&self, cells);
                        lemma_and_value(&gate, cells);
                        lemma_push_high(self.operands(), state, cells);
                    }
                }
                gate
            },
            Gate::Or(mut inner) => {
                inner.push(state);
                let gate = Gate::Or(inner);
                proof {
                    assert forall|cells: Seq<bool>| #[trigger]
                        gate.value(cells) == (self.value(cells) || state.value(cells)) by {
                        lemma_or_value(&self, cells);
                        lemma_or_value(&gate, cells);
                        lemma_push_high(self.operands(), state, cells);
                    }
                }
                gate
            },
        }
    }

    /// Computes this gate's output from the current levels of `cells`,
    /// walking every gate below it anew.
    pub fn eval(&self, cells: &Vec<bool>) -> (out: bool)
        ensures
            out == self.value(cells@),
        decreases self,
    {
        match self {
            Gate::Input(signal) => signal.read(cells),
            Gate::Not(inner) => !inner.eval(cells),
            Gate::And(inner) => {
                let mut i: usize = 0;
                while i < inner.len()
                    invariant
                        i <= inner.len(),
                        *self == Gate::And(*inner),
                        forall|j: int| 0 <= j < i ==> (#[trigger] inner[j]).value(cells@),
                    decreases inner.len() - i,
                {
                    proof {
                        assert(decreases_to!(*self => self->And_0));
                        assert(decreases_to!(*inner => inner[i as int]));
                    }
                    if !inner[i].eval(cells) {
                        assert(!self->And_0[i as int].value(cells@));
                        return false;
                    }
                    i += 1;
                }
                true
            },
            Gate::Or(inner) => {
                let mut i: usize = 0;
                while i < inner.len()
                    invariant
                        i <= inner.len(),
                        *self == Gate::Or(*inner),
                        forall|j: int| 0 <= j < i ==> !(#[trigger] inner[j]).value(cells@),
                    decreases inner.len() - i,
                {
                    proof {
                        assert(decreases_to!(*self => self->Or_0));
                        assert(decreases_to!(*inner => inner[i as int]));
                    }
                    if inner[i].eval(cells) {
                        assert(self->Or_0[i as int].value(cells@));
                        return true;
                    }
                    i += 1;
                }
                false
            },
        }
    }
}

/// What `all_high` and `any_high` say of two gates.
pub proof fn lemma_pair_high(a: Rc<Gate>, b: Rc<Gate>, cells: Seq<bool>)
    ensures
        all_high(seq![a, b], cells) == (a.value(cells) && b.value(cells)),
        any_high(seq![a, b], cells) == (a.value(cells) || b.value(cells)),
{
    let pair = seq![a, b];
    assert(pair[0] == a && pair[1] == b);
}

/// What one more gate at the end does to `all_high` and `any_high`.
pub proof fn lemma_push_high(gates: Seq<Rc<Gate>>, last: Rc<Gate>, cells: Seq<bool>)
    ensures
        all_high(gates.push(last), cells) == (all_high(gates, cells) && last.value(cells)),
        any_high(gates.push(last), cells) == (any_high(gates, cells) || last.value(cells)),
{
    let more = gates.push(last);
    assert(more[gates.len() as int] == last);
    assert(forall|i: int| 0 <= i < gates.len() ==> more[i] == gates[i]);
    if all_high(gates, cells) && last.value(cells) {
        assert forall|i: int| 0 <= i < more.len() implies (#[trigger] more[i]).value(cells) by {
            if i < gates.len() {
                assert(gates[i].value(cells));
            }
        }
    }
    if any_high(gates, cells) {
        let i = choose|i: int| 0 <= i < gates.len() && (#[trigger] gates[i]).value(cells);
        assert(more[i].value(cells));
    }
    if all_high(more, cells) {
        assert forall|i: int| 0 <= i < gates.len() implies (#[trigger] gates[i]).value(cells) by {
            assert(more[i].value(cells));
        }
    }
    if any_high(more, cells) {
        let i = choose|i: int| 0 <= i < more.len() && (#[trigger] more[i]).value(cells);
        if i < gates.len() {
            assert(gates[i].value(cells));
        }
    }
}

/// A shared input fixed at `state`.
pub fn constant(state: bool) -> (gate: GateRef)
    ensures
        is_fixed(gate, state),
{
    Rc::new(Gate::constant(state))
}

/// An input wired to `cell` of the caller's bank.
pub fn input(cell: usize) -> (gate: Gate)
    ensures
        gate == Gate::Input(Signal::Shared(cell)),
{
    Gate::input(cell)
}

/// A shared negation of `state`.
pub fn not(state: GateRef) -> (gate: GateRef)
    ensures
        *gate == Gate::Not(state),
{
    Rc::new(Gate::not(state))
}

/// A shared conjunction of two gates.
pub fn and(state1: GateRef, state2: GateRef) -> (gate: GateRef)
    ensures
        gate.is_and_of(seq![state1, state2]),
        forall|cells: Seq<bool>| #[trigger]
            gate.value(cells) == (state1.value(cells) && state2.value(cells)),
{
    Rc::new(Gate::and(state1, state2))
}

/// A conjunction that has no operands yet.
pub fn empty_and() -> (gate: Gate)
    ensures
        gate.is_and_of(Seq::empty()),
        forall|cells: Seq<bool>| #[trigger] gate.value(cells),
{
    Gate::empty_and()
}

/// A shared disjunction of two gates.
pub fn or(state1: GateRef, state2: GateRef) -> (gate: GateRef)
    ensures
        gate.is_or_of(seq![state1, state2]),
        forall|cells: Seq<bool>| #[trigger]
            gate.value(cells) == (state1.value(cells) || state2.value(cells)),
{
    Rc::new(Gate::or(state1, state2))
}

/// A disjunction that has no operands yet.
pub fn empty_or() -> (gate: Gate)
    ensures
        gate.is_or_of(Seq::empty()),
        forall|cells: Seq<bool>| !#[trigger] gate.value(cells),
{
    Gate::empty_or()
}

/// A shared `not(and(state1, state2))`.
pub fn nand(state1: GateRef, state2: GateRef) -> (gate: GateRef)
    ensures
        gate.is_nand_of(state1, state2),
        forall|cells: Seq<bool>| #[trigger]
            gate.value(cells) == !(state1.value(cells) && state2.value(cells)),
{
    Rc::new(Gate::nand(state1, state2))
}

/// A shared `or(and(not(state1), state2), and(state1, not(state2)))`.
pub fn xor(state1: GateRef, state2: GateRef) -> (gate: GateRef)
    ensures
        gate.is_xor_of(state1, state2),
        forall|cells: Seq<bool>| #[trigger]
            gate.value(cells) == ((state1.value(cells) || state2.value(cells)) && !(
            state1.value(cells) && state2.value(cells))),
{
    Rc::new(Gate::xor(state1, state2))
}

} // verus!
