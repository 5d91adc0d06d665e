//! Quantum gates: unitary matrices tagged with the number of qubits they act
//! on.

use vstd::arithmetic::power2::*;
use vstd::prelude::*;

use crate::error::QuantumError;
use crate::ket::Ket;
use crate::matrix::{is_permutation, rows_permuted, Grid, Matrix};
use crate::scalar::Real;

verus! {

/// A quantum gate: a transformation of a quantum register.
///
/// A gate is tagged with a width and holds the matrix of the transformation
/// in the computational basis, of size `2^width`. Whether the matrix is
/// unitary is not checked.
#[derive(Debug, PartialEq)]
pub struct Gate<R: Real> {
    width: usize,
    matrix: Matrix<R>,
}

impl<R: Real> Gate<R> {
    #[verifier::type_invariant]
    spec fn well_formed(self) -> bool {
        self.matrix@.len() == pow2(self.width as nat)
    }

    /// The number of qubits this gate acts on.
    pub closed spec fn width_spec(&self) -> nat {
        self.width as nat
    }

    /// The rows of this gate's matrix.
    pub closed spec fn grid(&self) -> Grid<R> {
        self.matrix@
    }

    /// Constructs a quantum gate from its width and its matrix in the
    /// computational basis.
    ///
    /// The matrix is rejected unless its size is `2^width`.
    pub fn new(width: usize, matrix: Matrix<R>) -> (r: Result<Gate<R>, QuantumError>)
        ensures
            match r {
                Ok(g) => matrix@.len() == pow2(width as nat) && g.width_spec() == width
                    && g.grid() == matrix@,
                Err(e) => matrix@.len() != pow2(width as nat) && e
                    == QuantumError::DimensionMismatch,
            },
    {
        let size = matrix.size();
        proof {
            lemma2_to64();
            if width > 5 {
                lemma_pow2_strictly_increases(5, width as nat);
            }
        }
        if width > 5 || Ket::<R>::size(width) != size {
            return Err(QuantumError::DimensionMismatch);
        }
        Ok(Gate { width, matrix })
    }

    /// The width of this gate.
    pub fn width(&self) -> (w: usize)
        ensures
            w == self.width_spec(),
            self.grid().len() == pow2(w as nat),
    {
        proof {
            use_type_invariant(self);
        }
        self.width
    }

    /// The matrix of this gate.
    pub fn matrix(&self) -> (m: &Matrix<R>)
        ensures
            m@ == self.grid(),
            m@.len() == pow2(self.width_spec()),
    {
        proof {
            use_type_invariant(self);
        }
        &self.matrix
    }

    /// Moves the rows of this gate's matrix: row `k` of the matrix is row
    /// `permutation[k]` of the matrix of the result, which has the same width.
    ///
    /// The argument is rejected unless it is a permutation of the row indices
    /// of the matrix.
    pub fn permute(&self, permutation: Vec<usize>) -> (r: Result<Gate<R>, QuantumError>)
        ensures
            match r {
                Ok(g) => permutation@.len() == self.grid().len() && is_permutation(permutation@)
                    && g.width_spec() == self.width_spec() && g.grid() == rows_permuted(
                    self.grid(),
                    permutation@,
                ),
                Err(e) => !(permutation@.len() == self.grid().len() && is_permutation(
                    permutation@,
                )) && e == QuantumError::InvalidPermutation,
            },
    {
        proof {
            use_type_invariant(self);
        }
        match self.matrix.permute_rows(permutation) {
            Ok(m) => Gate::new(self.width, m),
            Err(e) => Err(e),
        }
    }
}

} // verus!
