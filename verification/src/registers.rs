//! Quantum registers, and the classical registers they collapse to.

use vstd::arithmetic::power2::*;
use vstd::prelude::*;

pub use crate::classical::ClassicalRegister;
use crate::classical::{bits_of, lemma_state_bound, state_of};
use crate::complex::Complex;
use crate::error::QuantumError;
use crate::gate::Gate;
use crate::ket::{basis_vector, norm_sum, Ket};
use crate::matrix::{grid_times_vector, tail_is_zero, MAX_SIZE};
use crate::scalar::Real;

verus! {

/// Whether a sample falls below the probability mass of the states up to and
/// including `state`.
pub open spec fn is_hit<R: Real>(amplitudes: Seq<Complex<R>>, sample: R, state: nat) -> bool {
    sample.less_than_spec(norm_sum(amplitudes, state + 1))
}

/// The first state from `from` on and below `states` that the sample hits,
/// and 0 where it hits none of them.
pub open spec fn first_hit<R: Real>(
    amplitudes: Seq<Complex<R>>,
    sample: R,
    from: nat,
    states: nat,
) -> nat
    decreases states - from,
{
    if from >= states {
        0
    } else if is_hit(amplitudes, sample, from) {
        from
    } else {
        first_hit(amplitudes, sample, from + 1, states)
    }
}

/// The state that a register with the given amplitudes and number of states
/// collapses to for a sample: the first state whose cumulative probability
/// exceeds the sample, and state 0 where rounding leaves the sample above
/// all of them.
pub open spec fn sampled_state<R: Real>(amplitudes: Seq<Complex<R>>, sample: R, states: nat) -> nat {
    first_hit(amplitudes, sample, 0, states)
}

/// The state a sample selects is one of the register's states.
pub proof fn lemma_first_hit_bound<R: Real>(
    amplitudes: Seq<Complex<R>>,
    sample: R,
    from: nat,
    states: nat,
)
    requires
        states > 0,
    ensures
        first_hit(amplitudes, sample, from, states) < states,
    decreases states - from,
{
    if from < states && !is_hit(amplitudes, sample, from) {
        lemma_first_hit_bound(amplitudes, sample, from + 1, states);
    }
}

/// Whether every entry of `amplitudes` from position `states` on is zero.
pub open spec fn is_zero_from<R: Real>(amplitudes: Seq<Complex<R>>, states: int) -> bool {
    forall|k: int|
        states <= k < amplitudes.len() ==> #[trigger] amplitudes[k] == Complex::<R>::zero_spec()
}

/// The squared absolute values of the first `states` amplitudes.
pub open spec fn probabilities_of<R: Real>(amplitudes: Seq<Complex<R>>, states: nat) -> Seq<R> {
    Seq::new(states, |s: int| amplitudes[s].norm_sqr_spec())
}

/// A register of `width` entangled qubits.
///
/// The register holds a superposition of its `2^width` classical states as a
/// ket, from its construction until it is collapsed. It can be collapsed
/// once; after that it takes no gate and gives no probabilities.
#[derive(Debug)]
pub struct QuantumRegister<R: Real> {
    width: usize,
    collapsed: bool,
    ket: Ket<R>,
}

impl<R: Real> QuantumRegister<R> {
    #[verifier::type_invariant]
    spec fn well_formed(self) -> bool {
        &&& pow2(self.width as nat) <= MAX_SIZE
        &&& self.ket.size == pow2(self.width as nat)
        &&& is_zero_from(self.ket.elements@, pow2(self.width as nat) as int)
    }

    /// The number of qubits.
    pub closed spec fn width_spec(&self) -> nat {
        self.width as nat
    }

    /// Whether the register has been collapsed.
    pub closed spec fn is_collapsed(&self) -> bool {
        self.collapsed
    }

    /// The buffer of amplitudes, of which the first `2^width` belong to the
    /// register's states.
    pub closed spec fn amplitudes(&self) -> Seq<Complex<R>> {
        self.ket.elements@
    }

    /// Constructs a quantum register of the given width in the state of a
    /// classical register.
    ///
    /// The classical register is rejected when its width is not `width`, and
    /// the width when its `2^width` states exceed `MAX_SIZE`.
    pub fn new(width: usize, initial: &ClassicalRegister) -> (r: Result<
        QuantumRegister<R>,
        QuantumError,
    >)
        ensures
            match r {
                Ok(q) => {
                    &&& initial@.len() == width
                    &&& pow2(width as nat) <= MAX_SIZE
                    &&& q.width_spec() == width
                    &&& !q.is_collapsed()
                    &&& q.amplitudes() == basis_vector::<R>(state_of(initial@) as int)
                },
                Err(e) => if initial@.len() != width {
                    e == QuantumError::WidthMismatch
                } else {
                    pow2(width as nat) > MAX_SIZE && e == QuantumError::Size
                },
            },
    {
        if width != initial.width() {
            return Err(QuantumError::WidthMismatch);
        }
        match Ket::from_classical(initial) {
            Ok(ket) => {
                proof {
                    lemma_state_bound(initial@);
                }
                Ok(QuantumRegister { width, collapsed: false, ket })
            },
            Err(e) => Err(e),
        }
    }

    /// The number of qubits.
    pub fn width(&self) -> (w: usize)
        ensures
            w == self.width_spec(),
            pow2(w as nat) <= MAX_SIZE,
            self.amplitudes().len() == MAX_SIZE,
            is_zero_from(self.amplitudes(), pow2(w as nat) as int),
    {
        proof {
            use_type_invariant(self);
        }
        self.width
    }

    /// Whether the register has been collapsed.
    pub fn collapsed(&self) -> (b: bool)
        ensures
            b == self.is_collapsed(),
    {
        self.collapsed
    }

    /// The ket that holds the register's superposition.
    pub fn ket(&self) -> (k: &Ket<R>)
        ensures
            k.elements@ == self.amplitudes(),
            k.size == pow2(self.width_spec()),
    {
        proof {
            use_type_invariant(self);
        }
        &self.ket
    }

    /// Applies a quantum gate to this register.
    ///
    /// A gate is rejected, and the register left as it is, when the register
    /// is collapsed, when it has another width than the register, or
    /// when an amplitude past the register's states does not compare equal to
    /// zero.
    pub fn apply(&mut self, gate: Gate<R>) -> (r: Result<(), QuantumError>)
        ensures
            final(self).width_spec() == old(self).width_spec(),
            final(self).is_collapsed() == old(self).is_collapsed(),
            match r {
                Ok(_) => {
                    &&& !old(self).is_collapsed()
                    &&& gate.width_spec() == old(self).width_spec()
                    &&& tail_is_zero(old(self).amplitudes(), gate.grid().len() as int)
                    &&& final(self).amplitudes() == grid_times_vector(
                        gate.grid(),
                        old(self).amplitudes(),
                    )
                },
                Err(e) => {
                    &&& *final(self) == *old(self)
                    &&& if old(self).is_collapsed() {
                        e == QuantumError::ProtocolViolation
                    } else if gate.width_spec() != old(self).width_spec() {
                        e == QuantumError::DimensionMismatch
                    } else {
                        !tail_is_zero(old(self).amplitudes(), gate.grid().len() as int) && e
                            == QuantumError::InvariantViolation
                    }
                },
            },
    {
        proof {
            use_type_invariant(&*self);
        }
        if self.collapsed {
            return Err(QuantumError::ProtocolViolation);
        }
        if self.width != gate.width() {
            return Err(QuantumError::DimensionMismatch);
        }
        let mut ket = self.ket;
        let r = ket.apply(gate);
        self.ket = ket;
        r
    }

    /// Collapses the register to a classical state, chosen by a sample drawn
    /// uniformly from `[0, 1)`: the first state at which the sum of the
    /// probabilities so far exceeds the sample, and state 0 where there is
    /// none.
    ///
    /// A register collapses once: a collapsed register is rejected and left
    /// as it is.
    pub fn collapse(&mut self, sample: R) -> (r: Result<ClassicalRegister, QuantumError>)
        ensures
            final(self).width_spec() == old(self).width_spec(),
            final(self).amplitudes() == old(self).amplitudes(),
            final(self).is_collapsed(),
            match r {
                Ok(c) => {
                    &&& !old(self).is_collapsed()
                    &&& c@ == bits_of(
                        old(self).width_spec(),
                        sampled_state(
                            old(self).amplitudes(),
                            sample,
                            pow2(old(self).width_spec()),
                        ),
                    )
                },
                Err(e) => {
                    &&& old(self).is_collapsed()
                    &&& e == QuantumError::ProtocolViolation
                    &&& *final(self) == *old(self)
                },
            },
    {
        proof {
            use_type_invariant(&*self);
            lemma2_to64();
            if self.width > 5 {
                lemma_pow2_strictly_increases(5, self.width as nat);
            }
        }
        if self.collapsed {
            return Err(QuantumError::ProtocolViolation);
        }
        self.collapsed = true;

        let states = Ket::<R>::size(self.width);
        let mut cumulative = R::from_u64(0);
        let mut state: usize = 0;
        let mut chosen: usize = 0;
        while state < states
            invariant_except_break
                state <= states,
                chosen == 0,
                cumulative == norm_sum(self.ket.elements@, state as nat),
                first_hit(self.ket.elements@, sample, 0, states as nat) == first_hit(
                    self.ket.elements@,
                    sample,
                    state as nat,
                    states as nat,
                ),
            invariant
                states == pow2(self.width as nat),
                states <= MAX_SIZE,
                self.ket.elements@.len() == MAX_SIZE,
            ensures
                chosen == first_hit(self.ket.elements@, sample, 0, states as nat),
            decreases states - state,
        {
            cumulative = cumulative.plus(self.ket.elements[state].norm_sqr());
            if sample.less_than(cumulative) {
                chosen = state;
                break ;
            }
            state = state + 1;
        }
        proof {
            lemma_pow2_pos(self.width as nat);
            lemma_first_hit_bound(self.ket.elements@, sample, 0, states as nat);
        }
        ClassicalRegister::from_state(self.width, chosen as u32)
    }

    /// The probabilities of the register's `2^width` states.
    ///
    /// A collapsed register is rejected.
    pub fn probabilities(&self) -> (r: Result<Vec<R>, QuantumError>)
        ensures
            match r {
                Ok(p) => {
                    &&& !self.is_collapsed()
                    &&& p@.len() == pow2(self.width_spec())
                    &&& p@ == probabilities_of(self.amplitudes(), pow2(self.width_spec()))
                },
                Err(e) => self.is_collapsed() && e == QuantumError::ProtocolViolation,
            },
    {
        proof {
            use_type_invariant(self);
            lemma2_to64();
            if self.width > 5 {
                lemma_pow2_strictly_increases(5, self.width as nat);
            }
        }
        if self.collapsed {
            return Err(QuantumError::ProtocolViolation);
        }
        let states = Ket::<R>::size(self.width);
        let mut probabilities: Vec<R> = Vec::new();
        let mut state: usize = 0;
        while state < states
            invariant
                state <= states <= MAX_SIZE,
                self.ket.elements@.len() == MAX_SIZE,
                probabilities@ == probabilities_of(self.ket.elements@, state as nat),
            decreases states - state,
        {
            probabilities.push(self.ket.elements[state].norm_sqr());
            assert(probabilities@ =~= probabilities_of(self.ket.elements@, (state + 1) as nat));
            state = state + 1;
        }
        Ok(probabilities)
    }
}

} // verus!
