//! The quantum computer: one quantum register behind a protocol of
//! initializing, running and collapsing.

use vstd::arithmetic::power2::*;
use vstd::prelude::*;

use crate::classical::{bits_of, state_of};
use crate::complex::Complex;
use crate::error::QuantumError;
use crate::gate::Gate;
use crate::ket::basis_vector;
use crate::matrix::{grid_times_vector, tail_is_zero, MAX_SIZE};
use crate::registers::{probabilities_of, sampled_state, ClassicalRegister, QuantumRegister};
use crate::scalar::Real;

verus! {

/// The stage of its protocol that a quantum computer is in.
#[derive(Clone, Copy, Debug, PartialEq, Eq, Structural)]
pub enum State {
    /// The computer has been set up, but the qubits could be anything.
    Initializing,
    /// The computer is running, with qubits in arbitrary superposition.
    Running,
    /// The system is collapsed into a classical state.
    Collapsed,
}

/// A quantum computer of one register.
///
/// The computer is initialized to a classical state, takes gates while it
/// runs, and is collapsed to a classical value, after which it can be reset
/// and initialized again. An operation invoked at another stage is rejected
/// as a protocol violation, and leaves the computer as it is.
///
/// The computer holds its quantum register and the classical register of its
/// last outcome at every stage. The first means something while the computer
/// runs, the second once it is collapsed.
#[derive(Debug)]
pub struct QuantumComputer<R: Real> {
    state: State,
    width: usize,
    register: QuantumRegister<R>,
    classical: ClassicalRegister,
}

impl<R: Real> QuantumComputer<R> {
    #[verifier::type_invariant]
    spec fn well_formed(self) -> bool {
        &&& pow2(self.width as nat) <= MAX_SIZE
        &&& self.register.width_spec() == self.width
        &&& self.classical@.len() == self.width
        &&& self.state == State::Running ==> !self.register.is_collapsed()
    }

    /// The number of qubits of the register.
    pub closed spec fn width_spec(&self) -> nat {
        self.width as nat
    }

    /// The stage the computer is in.
    pub closed spec fn state_spec(&self) -> State {
        self.state
    }

    /// The amplitudes of the quantum register.
    pub closed spec fn amplitudes(&self) -> Seq<Complex<R>> {
        self.register.amplitudes()
    }

    /// The bits of the classical register, which are the outcome of the last
    /// collapse once there has been one.
    pub closed spec fn outcome(&self) -> Seq<u8> {
        self.classical@
    }

    /// Constructs a quantum computer with a register of the given width,
    /// ready to be initialized. Both of its registers are in the state 0.
    ///
    /// The width is rejected when its `2^width` states exceed `MAX_SIZE`.
    pub fn new(width: usize) -> (r: Result<QuantumComputer<R>, QuantumError>)
        ensures
            match r {
                Ok(c) => {
                    &&& pow2(width as nat) <= MAX_SIZE
                    &&& c.width_spec() == width
                    &&& c.state_spec() == State::Initializing
                    &&& c.amplitudes() == basis_vector::<R>(0)
                    &&& c.outcome() == Seq::new(width as nat, |i: int| 0u8)
                },
                Err(e) => pow2(width as nat) > MAX_SIZE && e == QuantumError::Size,
            },
    {
        let classical = ClassicalRegister::zeroed(width);
        match QuantumRegister::new(width, &classical) {
            Ok(register) => Ok(
                QuantumComputer { state: State::Initializing, width, register, classical },
            ),
            Err(e) => Err(e),
        }
    }

    /// The stage the computer is in.
    pub fn state(&self) -> (s: State)
        ensures
            s == self.state_spec(),
    {
        self.state
    }

    /// Initializes the register to the classical state `value` and starts
    /// running.
    ///
    /// Rejected unless the computer is initializing and the value is below
    /// `2^width`.
    pub fn initialize(&mut self, value: u32) -> (r: Result<(), QuantumError>)
        ensures
            final(self).width_spec() == old(self).width_spec(),
            final(self).outcome() == old(self).outcome(),
            match r {
                Ok(_) => {
                    &&& old(self).state_spec() == State::Initializing
                    &&& value < pow2(old(self).width_spec())
                    &&& final(self).state_spec() == State::Running
                    &&& final(self).amplitudes() == basis_vector::<R>(value as int)
                },
                Err(e) => {
                    &&& *final(self) == *old(self)
                    &&& if old(self).state_spec() != State::Initializing {
                        e == QuantumError::ProtocolViolation
                    } else {
                        value >= pow2(old(self).width_spec()) && e == QuantumError::Range
                    }
                },
            },
    {
        proof {
            use_type_invariant(&*self);
        }
        if self.state != State::Initializing {
            return Err(QuantumError::ProtocolViolation);
        }
        let classical = match ClassicalRegister::from_int(self.width, value) {
            Ok(classical) => classical,
            Err(e) => {
                return Err(e);
            },
        };
        match QuantumRegister::new(self.width, &classical) {
            Ok(register) => {
                self.register = register;
                self.state = State::Running;
                Ok(())
            },
            Err(e) => Err(e),
        }
    }

    /// Applies a quantum gate to the register.
    ///
    /// Rejected unless the computer is running, `gate` has the width of the
    /// register, and the amplitudes past the register's states compare equal
    /// to zero.
    pub fn apply(&mut self, gate: Gate<R>) -> (r: Result<(), QuantumError>)
        ensures
            final(self).width_spec() == old(self).width_spec(),
            final(self).outcome() == old(self).outcome(),
            match r {
                Ok(_) => {
                    &&& old(self).state_spec() == State::Running
                    &&& gate.width_spec() == old(self).width_spec()
                    &&& tail_is_zero(old(self).amplitudes(), gate.grid().len() as int)
                    &&& final(self).state_spec() == State::Running
                    &&& final(self).amplitudes() == grid_times_vector(
                        gate.grid(),
                        old(self).amplitudes(),
                    )
                },
                Err(e) => {
                    &&& *final(self) == *old(self)
                    &&& if old(self).state_spec() != State::Running {
                        e == QuantumError::ProtocolViolation
                    } else if gate.width_spec() != old(self).width_spec() {
                        e == QuantumError::DimensionMismatch
                    } else {
                        !tail_is_zero(old(self).amplitudes(), gate.grid().len() as int) && e
                            == QuantumError::InvariantViolation
                    }
                },
            },
    {
        proof {
            use_type_invariant(&*self);
        }
        if self.state != State::Running {
            return Err(QuantumError::ProtocolViolation);
        }
        let mut register = match self.take_register() {
            Ok(register) => register,
            Err(e) => {
                return Err(e);
            },
        };
        let r = register.apply(gate);
        self.register = register;
        r
    }

    /// Takes the quantum register out of a running computer and leaves a fresh
    /// one in its place, so that the one taken can change while the computer
    /// holds a whole register throughout.
    fn take_register(&mut self) -> (r: Result<QuantumRegister<R>, QuantumError>)
        requires
            old(self).state == State::Running,
        ensures
            final(self).state == old(self).state,
            final(self).width == old(self).width,
            final(self).classical == old(self).classical,
            r == Ok::<QuantumRegister<R>, QuantumError>(old(self).register),
    {
        proof {
            use_type_invariant(&*self);
        }
        match QuantumRegister::new(self.width, &self.classical) {
            Ok(mut register) => {
                core::mem::swap(&mut self.register, &mut register);
                Ok(register)
            },
            Err(e) => Err(e),
        }
    }

    /// Collapses the register to a classical state, chosen by a sample drawn
    /// uniformly from `[0, 1)`, and keeps the outcome.
    ///
    /// Rejected unless the computer is running.
    pub fn collapse(&mut self, sample: R) -> (r: Result<(), QuantumError>)
        ensures
            final(self).width_spec() == old(self).width_spec(),
            final(self).amplitudes() == old(self).amplitudes(),
            match r {
                Ok(_) => {
                    &&& old(self).state_spec() == State::Running
                    &&& final(self).state_spec() == State::Collapsed
                    &&& final(self).outcome() == bits_of(
                        old(self).width_spec(),
                        sampled_state(
                            old(self).amplitudes(),
                            sample,
                            pow2(old(self).width_spec()),
                        ),
                    )
                },
                Err(e) => {
                    &&& *final(self) == *old(self)
                    &&& old(self).state_spec() != State::Running
                    &&& e == QuantumError::ProtocolViolation
                },
            },
    {
        proof {
            use_type_invariant(&*self);
        }
        if self.state != State::Running {
            return Err(QuantumError::ProtocolViolation);
        }
        let mut register = match self.take_register() {
            Ok(register) => register,
            Err(e) => {
                return Err(e);
            },
        };
        proof {
            use_type_invariant(&*self);
        }
        match register.collapse(sample) {
            Ok(classical) => {
                self.state = State::Collapsed;
                self.register = register;
                self.classical = classical;
                Ok(())
            },
            Err(e) => {
                self.register = register;
                Err(e)
            },
        }
    }

    /// Makes a collapsed computer ready to be initialized again. Its registers
    /// stay as they are until then.
    ///
    /// Rejected unless the computer is collapsed.
    pub fn reset(&mut self) -> (r: Result<(), QuantumError>)
        ensures
            final(self).width_spec() == old(self).width_spec(),
            final(self).amplitudes() == old(self).amplitudes(),
            final(self).outcome() == old(self).outcome(),
            match r {
                Ok(_) => {
                    &&& old(self).state_spec() == State::Collapsed
                    &&& final(self).state_spec() == State::Initializing
                },
                Err(e) => {
                    &&& *final(self) == *old(self)
                    &&& old(self).state_spec() != State::Collapsed
                    &&& e == QuantumError::ProtocolViolation
                },
            },
    {
        proof {
            use_type_invariant(&*self);
        }
        if self.state != State::Collapsed {
            return Err(QuantumError::ProtocolViolation);
        }
        self.state = State::Initializing;
        Ok(())
    }

    /// The integer that the register has collapsed to.
    ///
    /// Rejected unless the computer is collapsed.
    pub fn value(&self) -> (r: Result<u32, QuantumError>)
        ensures
            match r {
                Ok(v) => self.state_spec() == State::Collapsed && v == state_of(self.outcome()),
                Err(e) => self.state_spec() != State::Collapsed && e
                    == QuantumError::ProtocolViolation,
            },
    {
        proof {
            use_type_invariant(self);
            lemma2_to64();
            if self.width > 5 {
                lemma_pow2_strictly_increases(5, self.width as nat);
            }
        }
        if self.state != State::Collapsed {
            return Err(QuantumError::ProtocolViolation);
        }
        Ok(self.classical.to_int())
    }

    /// The probabilities of the register's `2^width` states, without
    /// collapsing it.
    ///
    /// Rejected unless the computer is running.
    pub fn probabilities(&self) -> (r: Result<Vec<R>, QuantumError>)
        ensures
            match r {
                Ok(p) => {
                    &&& self.state_spec() == State::Running
                    &&& p@.len() == pow2(self.width_spec())
                    &&& p@ == probabilities_of(self.amplitudes(), pow2(self.width_spec()))
                },
                Err(e) => self.state_spec() != State::Running && e
                    == QuantumError::ProtocolViolation,
            },
    {
        proof {
            use_type_invariant(self);
        }
        if self.state != State::Running {
            return Err(QuantumError::ProtocolViolation);
        }
        self.register.probabilities()
    }
}

} // verus!
