//! A single qubit.

use vstd::prelude::*;

use crate::complex::Complex;
use crate::error::QuantumError;
use crate::scalar::Real;

verus! {

/// Whether the squared absolute values of the two coefficients sum to one, up
/// to ten units in the last place.
pub open spec fn is_unit_pair<R: Real>(a: Complex<R>, b: Complex<R>) -> bool {
    a.norm_sqr_spec().plus_spec(b.norm_sqr_spec()).close_in_ulps_spec(R::from_u64_spec(1), 10)
}

/// A single qubit that is pure and not entangled: a state of the form
/// `a|0> + b|1>`, a linear superposition of the computational basis `|0>` and
/// `|1>`.
///
/// The coefficients are held by their real and imaginary parts. They satisfy
/// `|a|^2 + |b|^2 = 1`, up to ten units in the last place.
#[derive(Copy, Debug)]
pub struct NonEntangledQubit<R: Real> {
    a_re: R,
    a_im: R,
    b_re: R,
    b_im: R,
}

impl<R: Real> Clone for NonEntangledQubit<R> {
    fn clone(&self) -> (q: Self)
        ensures
            q == *self,
    {
        *self
    }
}

impl<R: Real> NonEntangledQubit<R> {
    #[verifier::type_invariant]
    spec fn well_formed(self) -> bool {
        is_unit_pair(self.a(), self.b())
    }

    /// The coefficient of `|0>`.
    pub closed spec fn a(&self) -> Complex<R> {
        Complex { re: self.a_re, im: self.a_im }
    }

    /// The coefficient of `|1>`.
    pub closed spec fn b(&self) -> Complex<R> {
        Complex { re: self.b_re, im: self.b_im }
    }

    /// Constructs a qubit from the real and imaginary parts of both
    /// coefficients.
    ///
    /// The coefficients are rejected unless their squared absolute values sum
    /// to one, up to ten units in the last place.
    pub fn new(a_re: R, a_im: R, b_re: R, b_im: R) -> (r: Result<
        NonEntangledQubit<R>,
        QuantumError,
    >)
        ensures
            match r {
                Ok(q) => {
                    &&& q.a() == (Complex { re: a_re, im: a_im })
                    &&& q.b() == (Complex { re: b_re, im: b_im })
                    &&& is_unit_pair(q.a(), q.b())
                },
                Err(e) => {
                    &&& !is_unit_pair(Complex { re: a_re, im: a_im }, Complex { re: b_re, im: b_im })
                    &&& e == QuantumError::InvariantViolation
                },
            },
    {
        let sum = a_re.times(a_re).plus(a_im.times(a_im)).plus(
            b_re.times(b_re).plus(b_im.times(b_im)),
        );
        if !sum.close_in_ulps(R::from_u64(1), 10) {
            return Err(QuantumError::InvariantViolation);
        }
        Ok(NonEntangledQubit { a_re, a_im, b_re, b_im })
    }

    /// Whether this qubit's state is possible: whether the squared absolute
    /// values of its coefficients sum to one, up to ten units in the last
    /// place.
    pub fn validate(&self) -> (b: bool)
        ensures
            b == is_unit_pair(self.a(), self.b()),
            b,
    {
        proof {
            use_type_invariant(self);
        }
        let sum = self.a_re.times(self.a_re).plus(self.a_im.times(self.a_im)).plus(
            self.b_re.times(self.b_re).plus(self.b_im.times(self.b_im)),
        );
        sum.close_in_ulps(R::from_u64(1), 10)
    }
}

} // verus!
