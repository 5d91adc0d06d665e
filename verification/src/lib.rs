//! A simulator of a small quantum computer, with its behaviour stated in
//! contracts and proved.
//!
//! The parts, leaves first:
//!
//! - `scalar`: the real numbers the simulator computes with, as a trait;
//! - `complex`: complex numbers over such reals;
//! - `matrix`: square matrices of a fixed capacity, with sums, products,
//!   embedding of blocks and permutation of rows and columns;
//! - `classical`: classical bit registers and their numbering by state;
//! - `ket`: the state vector of a quantum register;
//! - `gate` and `gates`: gates, and the common ones;
//! - `registers`: the quantum register, which takes gates and collapses once;
//! - `computer`: the quantum computer, which leads one register through
//!   initializing, running and collapsing;
//! - `algorithms`: Deutsch's algorithm;
//! - `other`: the single qubit.
//!
//! An operation that cannot be carried out returns a `QuantumError` and leaves
//! its arguments as they were; none panics.
//!
//! The numbers are a parameter. The simulator is written for any type that
//! implements `scalar::Real`, and its contracts say which operations of that
//! type make up a result, and in which order. The randomness is a parameter
//! too: a collapse takes the sample that decides it.

pub mod algorithms;
pub mod classical;
pub mod complex;
pub mod computer;
pub mod error;
pub mod gate;
pub mod gates;
pub mod ket;
pub mod matrix;
pub mod other;
pub mod registers;
pub mod scalar;
