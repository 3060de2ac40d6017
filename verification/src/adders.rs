//! Adders composed from gates.

pub mod carry_lookahead;
pub mod ripple_carry;
