//! Qubits that are not entangled with others.

pub mod qubit;
