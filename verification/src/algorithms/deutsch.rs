//! Deutsch's algorithm.

use vstd::arithmetic::power2::*;
use vstd::prelude::*;

use crate::complex::Complex;
use crate::computer::QuantumComputer;
use crate::error::QuantumError;
use crate::gate::Gate;
use crate::gates::{hadamard, hadamard_grid, pauli_x_grid};
use crate::ket::basis_vector;
use crate::matrix::{embedded, grid_times_vector, identity_grid, tail_is_zero, Grid, Matrix};
use crate::registers::sampled_state;
use crate::scalar::Real;

verus! {

/// What Deutsch's algorithm finds out about a function from `{0, 1}` to
/// `{0, 1}`.
#[derive(Clone, Copy, Debug, PartialEq, Eq, Structural)]
pub enum DeutschAlgorithmOutput {
    /// The function takes both values.
    Balanced,
    /// The function takes one value only.
    Constant,
}

/// The matrix that takes `|a, b>` to `|a, b + f(a)>` for the function `f` with
/// `f(0) == f0` and `f(1) == f1`.
pub open spec fn deutsch_grid<R: Real>(f0: int, f1: int) -> Grid<R> {
    let first = if f0 == 1 {
        embedded(identity_grid::<R>(4), pauli_x_grid::<R>(), 0, 0)
    } else {
        identity_grid::<R>(4)
    };
    if f1 == 1 {
        embedded(first, pauli_x_grid::<R>(), 2, 2)
    } else {
        first
    }
}

/// Whether `r` is what `deutsch_gate` owes for a function with the values
/// `f0` at 0 and `f1` at 1.
pub open spec fn is_deutsch_gate<R: Real>(r: Result<Gate<R>, QuantumError>, f0: i32, f1: i32) -> bool {
    match r {
        Ok(g) => {
            &&& (f0 == 0 || f0 == 1)
            &&& (f1 == 0 || f1 == 1)
            &&& g.width_spec() == 2
            &&& g.grid() == deutsch_grid::<R>(f0 as int, f1 as int)
        },
        Err(e) => {
            &&& !((f0 == 0 || f0 == 1) && (f1 == 0 || f1 == 1))
            &&& e == QuantumError::InvalidBit
        },
    }
}

/// The amplitudes before the collapse in Deutsch's algorithm, for a function
/// with the values `f0` at 0 and `f1` at 1: the state 1 after a Hadamard gate,
/// the function's gate and another Hadamard gate.
pub open spec fn deutsch_amplitudes<R: Real>(f0: int, f1: int) -> Seq<Complex<R>> {
    let h = hadamard_grid::<R>(2);
    grid_times_vector(
        h,
        grid_times_vector(deutsch_grid::<R>(f0, f1), grid_times_vector(h, basis_vector::<R>(1))),
    )
}

/// What Deutsch's algorithm returns for a function with the values `f0` at 0
/// and `f1` at 1 and for a sample: constant where the register collapses to
/// state 1, balanced where it collapses to state 3.
pub open spec fn deutsch_outcome<R: Real>(f0: i32, f1: i32, sample: R) -> Result<
    DeutschAlgorithmOutput,
    QuantumError,
> {
    if !((f0 == 0 || f0 == 1) && (f1 == 0 || f1 == 1)) {
        Err(QuantumError::InvalidBit)
    } else if !Complex::<R>::zero_spec().equals_spec(Complex::<R>::zero_spec()) {
        Err(QuantumError::InvariantViolation)
    } else {
        let state = sampled_state(deutsch_amplitudes::<R>(f0 as int, f1 as int), sample, 4);
        if state == 1 {
            Ok(DeutschAlgorithmOutput::Constant)
        } else if state == 3 {
            Ok(DeutschAlgorithmOutput::Balanced)
        } else {
            Err(QuantumError::InvariantViolation)
        }
    }
}

/// A gate that takes `|a, b>` to `|a, b + f(a)>`.
///
/// `f` must be a function from `{0, 1}` to `{0, 1}`: it is asked once for each
/// argument, and rejected when a value is neither 0 nor 1.
pub fn deutsch_gate<R: Real, F: Fn(i32) -> i32>(f: F) -> (r: Result<Gate<R>, QuantumError>)
    requires
        call_requires(f, (0i32,)),
        call_requires(f, (1i32,)),
    ensures
        exists|f0: i32, f1: i32|
            call_ensures(f, (0i32,), f0) && call_ensures(f, (1i32,), f1) && is_deutsch_gate(
                r,
                f0,
                f1,
            ),
{
    let f0 = f(0);
    let f1 = f(1);
    let r = deutsch_gate_for(f0, f1);
    assert(call_ensures(f, (0i32,), f0) && call_ensures(f, (1i32,), f1) && is_deutsch_gate(
        r,
        f0,
        f1,
    ));
    r
}

/// A gate that takes `|a, b>` to `|a, b + f(a)>` for the function `f` with
/// `f(0) == f0` and `f(1) == f1`.
///
/// The values are rejected when one is neither 0 nor 1.
pub fn deutsch_gate_for<R: Real>(f0: i32, f1: i32) -> (r: Result<Gate<R>, QuantumError>)
    ensures
        is_deutsch_gate(r, f0, f1),
{
    if !((f0 == 0 || f0 == 1) && (f1 == 0 || f1 == 1)) {
        return Err(QuantumError::InvalidBit);
    }
    proof {
        lemma2_to64();
    }
    let z = R::from_u64(0);
    let o = R::from_u64(1);
    let exchange = match Matrix::new_from_elements(
        2,
        vec![Complex::new(z, z), Complex::new(o, z), Complex::new(o, z), Complex::new(z, z)],
    ) {
        Ok(m) => m,
        Err(e) => {
            return Err(e);
        },
    };
    assert(exchange@ =~~= pauli_x_grid::<R>());
    let mut m = match Matrix::identity(4) {
        Ok(m) => m,
        Err(e) => {
            return Err(e);
        },
    };
    if f0 == 1 {
        match m.embed(&exchange, 0, 0) {
            Ok(_) => {},
            Err(e) => {
                return Err(e);
            },
        }
    }
    if f1 == 1 {
        match m.embed(&exchange, 2, 2) {
            Ok(_) => {},
            Err(e) => {
                return Err(e);
            },
        }
    }
    match Gate::new(2, m) {
        Ok(g) => Ok(g),
        Err(e) => Err(e),
    }
}

/// Determines whether `f`, a function from `{0, 1}` to `{0, 1}`, is constant or
/// balanced, with one application of the function's gate and one collapse,
/// for which `sample` is drawn uniformly from `[0, 1)`.
pub fn deutsch_algorithm<R: Real, F: Fn(i32) -> i32>(f: F, sample: R) -> (r: Result<
    DeutschAlgorithmOutput,
    QuantumError,
>)
    requires
        call_requires(f, (0i32,)),
        call_requires(f, (1i32,)),
    ensures
        exists|f0: i32, f1: i32|
            call_ensures(f, (0i32,), f0) && call_ensures(f, (1i32,), f1) && r == deutsch_outcome(
                f0,
                f1,
                sample,
            ),
{
    let f0 = f(0);
    let f1 = f(1);
    let r = deutsch_algorithm_for(f0, f1, sample);
    assert(call_ensures(f, (0i32,), f0) && call_ensures(f, (1i32,), f1) && r == deutsch_outcome(
        f0,
        f1,
        sample,
    ));
    r
}

/// Runs Deutsch's algorithm for the function `f` with `f(0) == f0` and
/// `f(1) == f1`.
pub fn deutsch_algorithm_for<R: Real>(f0: i32, f1: i32, sample: R) -> (r: Result<
    DeutschAlgorithmOutput,
    QuantumError,
>)
    ensures
        r == deutsch_outcome(f0, f1, sample),
{
    let gate = match deutsch_gate_for::<R>(f0, f1) {
        Ok(gate) => gate,
        Err(e) => {
            return Err(e);
        },
    };
    proof {
        lemma2_to64();
    }
    let mut c = match QuantumComputer::<R>::new(2) {
        Ok(c) => c,
        Err(e) => {
            return Err(e);
        },
    };
    // Initialize to |10>
    match c.initialize(1) {
        Ok(_) => {},
        Err(e) => {
            return Err(e);
        },
    }
    let ghost v0 = basis_vector::<R>(1);
    let ghost h = hadamard_grid::<R>(2);
    let ghost v1 = grid_times_vector(h, v0);
    let ghost v2 = grid_times_vector(gate.grid(), v1);
    proof {
        let zero = Complex::<R>::zero_spec();
        if zero.equals_spec(zero) {
            assert(tail_is_zero(v0, 4));
            assert(tail_is_zero(v1, 4));
            assert(tail_is_zero(v2, 4));
        } else {
            assert(!zero.equals_spec(v0[4]));
            assert(!tail_is_zero(v0, 4));
        }
    }
    let first = match hadamard::<R>(2) {
        Ok(g) => g,
        Err(e) => {
            return Err(e);
        },
    };
    match c.apply(first) {
        Ok(_) => {},
        Err(e) => {
            return Err(e);
        },
    }
    match c.apply(gate) {
        Ok(_) => {},
        Err(e) => {
            return Err(e);
        },
    }
    let second = match hadamard::<R>(2) {
        Ok(g) => g,
        Err(e) => {
            return Err(e);
        },
    };
    match c.apply(second) {
        Ok(_) => {},
        Err(e) => {
            return Err(e);
        },
    }
    match c.collapse(sample) {
        Ok(_) => {},
        Err(e) => {
            return Err(e);
        },
    }
    let value = match c.value() {
        Ok(value) => value,
        Err(e) => {
            return Err(e);
        },
    };
    proof {
        crate::registers::lemma_first_hit_bound(
            deutsch_amplitudes::<R>(f0 as int, f1 as int),
            sample,
            0,
            4,
        );
        crate::classical::lemma_state_round_trip(
            2,
            sampled_state(deutsch_amplitudes::<R>(f0 as int, f1 as int), sample, 4),
        );
    }
    if value == 1 {
        Ok(DeutschAlgorithmOutput::Constant)
    } else if value == 3 {
        Ok(DeutschAlgorithmOutput::Balanced)
    } else {
        Err(QuantumError::InvariantViolation)
    }
}

} // verus!
