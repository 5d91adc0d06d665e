//! Quantum algorithms built from the simulator's parts.

pub mod deutsch;
