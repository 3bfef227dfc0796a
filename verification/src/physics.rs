//! The propagation engine: Pauli operators, circuits, conjugation rules and
//! the stepping simulator.

pub mod circuit;
pub mod identities;
pub mod pauli;
pub mod propagation;
pub mod simulator;
