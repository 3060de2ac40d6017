//! Combinational logic, gate by gate: boolean gates evaluated on
//! demand, adders composed from them, and a four-bit arithmetic logic unit.

pub mod adders;
pub mod alu;
pub mod bits;
pub mod gates;
pub mod nodes;
pub mod objects;
pub mod operations;
pub mod types;
