//! Pauli-frame tracking for Clifford circuits: how a Pauli error on the qubits
//! of a circuit is transformed by each gate, stepped forward and backward.

pub mod binding;
pub mod bits;
pub mod io;
pub mod physics;
pub mod text;
