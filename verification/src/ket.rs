//! Kets: the state vectors of quantum registers.

use vstd::arithmetic::power2::*;
use vstd::prelude::*;

use crate::classical::{power_of_two, state_of, ClassicalRegister};
use crate::complex::Complex;
use crate::error::QuantumError;
use crate::gate::Gate;
use crate::matrix::{grid_times_vector, tail_is_zero, Vector, MAX_SIZE};
use crate::scalar::Real;

verus! {

/// The buffer that holds one at position `state` and zero elsewhere.
pub open spec fn basis_vector<R: Real>(state: int) -> Seq<Complex<R>> {
    Seq::new(
        MAX_SIZE as nat,
        |k: int|
            if k == state {
                Complex::<R>::one_spec()
            } else {
                Complex::<R>::zero_spec()
            },
    )
}

/// The sum of the squared absolute values of the first `k` amplitudes, added
/// up from zero in the order of the amplitudes.
pub open spec fn norm_sum<R: Real>(amplitudes: Seq<Complex<R>>, k: nat) -> R
    decreases k,
{
    if k == 0 {
        R::from_u64_spec(0)
    } else {
        norm_sum(amplitudes, (k - 1) as nat).plus_spec(amplitudes[k - 1].norm_sqr_spec())
    }
}

/// Whether the squared absolute values of all amplitudes sum to one, up to
/// ten units in the last place.
pub open spec fn is_normalized<R: Real>(amplitudes: Seq<Complex<R>>) -> bool {
    norm_sum(amplitudes, amplitudes.len()).close_in_ulps_spec(R::from_u64_spec(1), 10)
}

/// Whether the amplitude compares equal to zero.
pub open spec fn is_zero<R: Real>(amplitude: Complex<R>) -> bool {
    Complex::<R>::zero_spec().equals_spec(amplitude)
}

/// Whether the amplitude does not compare equal to zero and compares equal to
/// one.
pub open spec fn is_one<R: Real>(amplitude: Complex<R>) -> bool {
    !is_zero(amplitude) && Complex::<R>::one_spec().equals_spec(amplitude)
}

/// The number of amplitudes among the first `k` that are one.
pub open spec fn count_ones<R: Real>(amplitudes: Seq<Complex<R>>, k: nat) -> nat
    decreases k,
{
    if k == 0 {
        0
    } else {
        count_ones(amplitudes, (k - 1) as nat) + if is_one(amplitudes[k - 1]) {
            1nat
        } else {
            0nat
        }
    }
}

/// Whether exactly one amplitude is one and all others are zero.
pub open spec fn is_basis_state<R: Real>(amplitudes: Seq<Complex<R>>) -> bool {
    &&& count_ones(amplitudes, amplitudes.len()) == 1
    &&& forall|k: int|
        0 <= k < amplitudes.len() ==> is_zero(#[trigger] amplitudes[k]) || is_one(amplitudes[k])
}

/// A ket describes the state of a quantum register: the coefficients of a
/// linear combination of the computational basis. A register of width `n`
/// has a ket of size `2^n`.
///
/// The elements stand left-aligned in a buffer of `MAX_SIZE` slots, with the
/// unused slots set to zero.
#[derive(Copy, Debug, PartialEq)]
pub struct Ket<R: Real> {
    /// The number of elements in use.
    pub size: usize,
    /// The ket's elements, with respect to the computational basis.
    pub elements: Vector<R>,
}

impl<R: Real> Clone for Ket<R> {
    fn clone(&self) -> (k: Self)
        ensures
            k == *self,
    {
        *self
    }
}

impl<R: Real> Ket<R> {
    /// Constructs the ket of the given size whose elements are all zero.
    ///
    /// The size is rejected when it exceeds `MAX_SIZE`.
    pub fn new(size: usize) -> (r: Result<Ket<R>, QuantumError>)
        ensures
            match r {
                Ok(k) => size <= MAX_SIZE && k.size == size && k.elements@ == Seq::new(
                    MAX_SIZE as nat,
                    |i: int| Complex::<R>::zero_spec(),
                ),
                Err(e) => size > MAX_SIZE && e == QuantumError::Size,
            },
    {
        if size > MAX_SIZE {
            return Err(QuantumError::Size);
        }
        let k = Ket { size, elements: [Complex::zero();MAX_SIZE] };
        assert(k.elements@ =~= Seq::new(MAX_SIZE as nat, |i: int| Complex::<R>::zero_spec()));
        Ok(k)
    }

    /// Constructs the ket that encodes the state of a classical register: a
    /// single basis vector.
    ///
    /// The register is rejected when its `2^width` states exceed `MAX_SIZE`.
    pub fn from_classical(register: &ClassicalRegister) -> (r: Result<Ket<R>, QuantumError>)
        ensures
            match r {
                Ok(k) => pow2(register@.len()) <= MAX_SIZE && k.size == pow2(register@.len())
                    && k.elements@ == basis_vector::<R>(state_of(register@) as int),
                Err(e) => pow2(register@.len()) > MAX_SIZE && e == QuantumError::Size,
            },
    {
        let width = register.width();
        proof {
            lemma2_to64();
            if width > 5 {
                lemma_pow2_strictly_increases(5, width as nat);
            }
        }
        if width > 5 {
            return Err(QuantumError::Size);
        }
        let size = Ket::<R>::size(width);
        let state = register.state();
        let mut k = Ket { size, elements: [Complex::zero();MAX_SIZE] };
        k.elements[state as usize] = Complex::one();
        assert(k.elements@ =~= basis_vector::<R>(state_of(register@) as int));
        Ok(k)
    }

    /// Whether the squared absolute values of the elements sum to one, up to
    /// ten units in the last place.
    pub fn is_valid(&self) -> (b: bool)
        ensures
            b == is_normalized(self.elements@),
    {
        let mut sum = R::from_u64(0);
        let mut k: usize = 0;
        while k < MAX_SIZE
            invariant
                k <= MAX_SIZE,
                self.elements@.len() == MAX_SIZE,
                sum == norm_sum(self.elements@, k as nat),
            decreases MAX_SIZE - k,
        {
            sum = sum.plus(self.elements[k].norm_sqr());
            k = k + 1;
        }
        sum.close_in_ulps(R::from_u64(1), 10)
    }

    /// Whether this ket represents a classically possible state: whether
    /// exactly one element is one and all others are zero.
    ///
    /// A ket that is not valid is rejected.
    pub fn is_classical(&self) -> (r: Result<bool, QuantumError>)
        ensures
            match r {
                Ok(b) => is_normalized(self.elements@) && b == is_basis_state(self.elements@),
                Err(e) => !is_normalized(self.elements@) && e == QuantumError::InvariantViolation,
            },
    {
        if !self.is_valid() {
            return Err(QuantumError::InvariantViolation);
        }
        let mut ones: usize = 0;
        let mut others: usize = 0;
        let mut k: usize = 0;
        while k < MAX_SIZE
            invariant
                k <= MAX_SIZE,
                self.elements@.len() == MAX_SIZE,
                ones == count_ones(self.elements@, k as nat),
                ones <= k,
                others <= k,
                others == 0 <==> forall|t: int|
                    0 <= t < k ==> is_zero(#[trigger] self.elements@[t]) || is_one(
                        self.elements@[t],
                    ),
            decreases MAX_SIZE - k,
        {
            let coefficient = self.elements[k];
            if Complex::zero().equals(&coefficient) {
            } else if Complex::one().equals(&coefficient) {
                ones = ones + 1;
            } else {
                others = others + 1;
                assert(!(is_zero(self.elements@[k as int]) || is_one(self.elements@[k as int])));
            }
            k = k + 1;
        }
        Ok(ones == 1 && others == 0)
    }

    /// The size of the ket of a register of the given width: `2^width`.
    pub fn size(register_width: usize) -> (n: usize)
        requires
            register_width < usize::BITS,
        ensures
            n == pow2(register_width as nat),
    {
        proof {
            lemma2_to64();
            lemma2_to64_rest();
            if register_width < 32 {
                lemma_pow2_strictly_increases(register_width as nat, 32);
            } else {
                lemma_pow2_strictly_increases(register_width as nat, 64);
            }
        }
        power_of_two(register_width as u32) as usize
    }

    /// Applies a quantum gate to this ket: replaces the elements by the
    /// product of its matrix and the elements.
    ///
    /// A gate is rejected, and the ket left as it is, when an element past
    /// the size of its matrix does not compare equal to zero.
    pub fn apply(&mut self, gate: Gate<R>) -> (r: Result<(), QuantumError>)
        ensures
            final(self).size == old(self).size,
            match r {
                Ok(_) => {
                    &&& tail_is_zero(old(self).elements@, gate.grid().len() as int)
                    &&& final(self).elements@ == grid_times_vector(gate.grid(), old(self).elements@)
                },
                Err(e) => {
                    &&& !tail_is_zero(old(self).elements@, gate.grid().len() as int)
                    &&& e == QuantumError::InvariantViolation
                    &&& *final(self) == *old(self)
                },
            },
    {
        match gate.matrix().multiply_vector(&self.elements) {
            Ok(elements) => {
                self.elements = elements;
                Ok(())
            },
            Err(e) => Err(e),
        }
    }
}

} // verus!
