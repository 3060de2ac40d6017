//! One type for each kind of gate, for code that wants the kind in the
//! type: an `And` can only ever take operands, an `Input` never can.

use crate::gates::{
    all_high, any_high, lemma_and_value, lemma_or_value, Gate, GateRef, Signal,
};
use vstd::prelude::*;

verus! {

/// An input.
pub struct Input {
    inp: Signal,
}

/// A negation.
pub struct Not {
    inp: GateRef,
}

/// A conjunction of any number of operands.
pub struct And {
    inps: Vec<GateRef>,
}

/// A disjunction of any number of operands.
pub struct Or {
    inps: Vec<GateRef>,
}

impl Input {
    /// The signal this input takes its level from.
    pub closed spec fn signal(&self) -> Signal {
        self.inp
    }

    pub fn new(state: Signal) -> (node: Self)
        ensures
            node.signal() == state,
    {
        Self { inp: state }
    }

    pub fn eval(&self, cells: &Vec<bool>) -> (out: bool)
        ensures
            out == self.signal().level(cells@),
    {
        self.inp.read(cells)
    }

    pub fn into_gate(self) -> (gate: Gate)
        ensures
            gate == Gate::Input(self.signal()),
    {
        Gate::Input(self.inp)
    }
}

impl Not {
    /// What this negation is applied to.
    pub closed spec fn operand(&self) -> GateRef {
        self.inp
    }

    pub fn new(state: GateRef) -> (node: Self)
        ensures
            node.operand() == state,
    {
        Not { inp: state }
    }

    pub fn eval(&self, cells: &Vec<bool>) -> (out: bool)
        ensures
            out == !self.operand().value(cells@),
    {
        !self.inp.eval(cells)
    }

    /// Takes `state` in place of the operand it had.
    pub fn apply(&mut self, state: GateRef)
        ensures
            final(self).operand() == state,
    {
        self.inp = state;
    }

    pub fn into_gate(self) -> (gate: Gate)
        ensures
            gate == Gate::Not(self.operand()),
    {
        Gate::Not(self.inp)
    }
}

impl And {
    /// The operands, in the order they were given.
    pub closed spec fn operands(&self) -> Seq<GateRef> {
        self.inps@
    }

    pub fn new(state: Vec<GateRef>) -> (node: Self)
        ensures
            node.operands() == state@,
    {
        Self { inps: state }
    }

    pub fn eval(&self, cells: &Vec<bool>) -> (out: bool)
        ensures
            out == all_high(self.operands(), cells@),
    {
        let mut i: usize = 0;
        while i < self.inps.len()
            invariant
                i <= self.inps.len(),
                forall|j: int| 0 <= j < i ==> (#[trigger] self.inps[j]).value(cells@),
            decreases self.inps.len() - i,
        {
            if !self.inps[i].eval(cells) {
                assert(!self.operands()[i as int].value(cells@));
                return false;
            }
            i += 1;
        }
        true
    }

    /// Takes `state` as one more operand.
    pub fn apply(&mut self, state: GateRef)
        ensures
            final(self).operands() == old(self).operands().push(state),
    {
        self.inps.push(state);
    }

    pub fn into_gate(self) -> (gate: Gate)
        ensures
            gate.is_and_of(self.operands()),
            forall|cells: Seq<bool>| #[trigger]
                gate.value(cells) == all_high(self.operands(), cells),
    {
        let gate = Gate::And(self.inps);
        proof {
            assert forall|cells: Seq<bool>| #[trigger]
                gate.value(cells) == all_high(self.operands(), cells) by {
                lemma_and_value(&gate, cells);
            }
        }
        gate
    }
}

impl Or {
    /// The operands, in the order they were given.
    pub closed spec fn operands(&self) -> Seq<GateRef> {
        self.inps@
    }

    pub fn new(state: Vec<GateRef>) -> (node: Self)
        ensures
            node.operands() == state@,
    {
        Self { inps: state }
    }

    pub fn eval(&self, cells: &Vec<bool>) -> (out: bool)
        ensures
            out == any_high(self.operands(), cells@),
    {
        let mut i: usize = 0;
        while i < self.inps.len()
            invariant
                i <= self.inps.len(),
                forall|j: int| 0 <= j < i ==> !(#[trigger] self.inps[j]).value(cells@),
            decreases self.inps.len() - i,
        {
            if self.inps[i].eval(cells) {
                assert(self.operands()[i as int].value(cells@));
                return true;
            }
            i += 1;
        }
        assert forall|j: int| 0 <= j < self.operands().len() implies !(
        #[trigger] self.operands()[j]).value(cells@) by {
            assert(!self.inps[j].value(cells@));
        }
        false
    }

    /// Takes `state` as one more operand.
    pub fn apply(&mut self, state: GateRef)
        ensures
            final(self).operands() == old(self).operands().push(state),
    {
        self.inps.push(state);
    }

    pub fn into_gate(self) -> (gate: Gate)
        ensures
            gate.is_or_of(self.operands()),
            forall|cells: Seq<bool>| #[trigger]
                gate.value(cells) == any_high(self.operands(), cells),
    {
        let gate = Gate::Or(self.inps);
        proof {
            assert forall|cells: Seq<bool>| #[trigger]
                gate.value(cells) == any_high(self.operands(), cells) by {
                lemma_or_value(&gate, cells);
            }
        }
        gate
    }
}

/// An input of its own kind, fixed at `state`.
pub fn constant_naked(state: bool) -> (node: Input)
    ensures
        node.signal() == Signal::Fixed(state),
{
    Input::new(Signal::Fixed(state))
}

} // verus!
