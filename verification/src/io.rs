//! Circuits as text: OpenQASM 2.0 in and out, and LaTeX out.

pub mod latex;
pub mod qasm;
pub mod roundtrip;

pub use latex::{export_latex, export_latex_simple};
pub use qasm::{export_qasm, import_qasm};
