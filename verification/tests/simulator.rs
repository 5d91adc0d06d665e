use float_cmp::ApproxEqUlps;
use quantum::algorithms::deutsch::{
    deutsch_algorithm, deutsch_algorithm_for, deutsch_gate, deutsch_gate_for,
    DeutschAlgorithmOutput,
};
use quantum::complex::Complex;
use quantum::computer::{QuantumComputer, State};
use quantum::error::QuantumError;
use quantum::gate::Gate;
use quantum::gates::{
    controlled, controlled_not, controlled_x, controlled_y, controlled_z, fredkin, hadamard,
    identity, pauli_x, pauli_y, pauli_z, phase_shift, quantum_fourier_transform, sqrt_swap, swap,
    toffoli,
};
use quantum::ket::Ket;
use quantum::matrix::{Matrix, Vector, MAX_SIZE};
use quantum::other::qubit::NonEntangledQubit;
use quantum::registers::{ClassicalRegister, QuantumRegister};
use quantum::scalar::Real;

/// A 64-bit float. Every operation returns one canonical NaN, so that each is
/// a function of its arguments.
#[derive(Clone, Copy, Debug, PartialEq)]
struct F(f64);

fn canonical(x: f64) -> F {
    if x.is_nan() {
        F(f64::NAN)
    } else {
        F(x)
    }
}

// The model of each operation is the operation itself.
impl Real for F {
    fn from_u64_spec(n: u64) -> F {
        F::from_u64(n)
    }

    fn pi_spec() -> F {
        F::pi()
    }

    fn plus_spec(self, rhs: F) -> F {
        self.plus(rhs)
    }

    fn minus_spec(self, rhs: F) -> F {
        self.minus(rhs)
    }

    fn times_spec(self, rhs: F) -> F {
        self.times(rhs)
    }

    fn over_spec(self, rhs: F) -> F {
        self.over(rhs)
    }

    fn negated_spec(self) -> F {
        self.negated()
    }

    fn magnitude_spec(self) -> F {
        self.magnitude()
    }

    fn square_root_spec(self) -> F {
        self.square_root()
    }

    fn cosine_outcome(self, r: F) -> bool {
        self.cosine().equals(r)
    }

    fn sine_outcome(self, r: F) -> bool {
        self.sine().equals(r)
    }

    fn less_than_spec(self, rhs: F) -> bool {
        self.less_than(rhs)
    }

    fn equals_spec(self, rhs: F) -> bool {
        self.equals(rhs)
    }

    fn close_in_ulps_spec(self, rhs: F, ulps: i64) -> bool {
        self.close_in_ulps(rhs, ulps)
    }

    fn from_u64(n: u64) -> F {
        F(n as f64)
    }

    fn pi() -> F {
        F(std::f64::consts::PI)
    }

    fn plus(self, rhs: F) -> F {
        canonical(self.0 + rhs.0)
    }

    fn minus(self, rhs: F) -> F {
        canonical(self.0 - rhs.0)
    }

    fn times(self, rhs: F) -> F {
        canonical(self.0 * rhs.0)
    }

    fn over(self, rhs: F) -> F {
        canonical(self.0 / rhs.0)
    }

    fn negated(self) -> F {
        canonical(-self.0)
    }

    fn magnitude(self) -> F {
        canonical(self.0.abs())
    }

    fn square_root(self) -> F {
        canonical(self.0.sqrt())
    }

    fn cosine(self) -> F {
        canonical(self.0.cos())
    }

    fn sine(self) -> F {
        canonical(self.0.sin())
    }

    fn less_than(self, rhs: F) -> bool {
        self.0 < rhs.0
    }

    fn equals(self, rhs: F) -> bool {
        self.0 == rhs.0
    }

    fn close_in_ulps(self, rhs: F, ulps: i64) -> bool {
        self.0.approx_eq_ulps(&rhs.0, ulps)
    }
}

fn c(re: f64, im: f64) -> Complex<F> {
    Complex::new(F(re), F(im))
}

fn m_real(size: usize, elements: &[f64]) -> Matrix<F> {
    Matrix::new_from_elements(size, elements.iter().map(|x| c(*x, 0f64)).collect()).unwrap()
}

/// A sample drawn uniformly from `[0, 1)`.
fn sample() -> F {
    F(rand::random::<f64>() % 1.0)
}

/// Runs one gate on a classical state and checks the state it collapses to.
fn test_gate(computer: &mut QuantumComputer<F>, gate: Gate<F>, from: u32, to: u32) {
    computer.initialize(from).unwrap();
    computer.apply(gate).unwrap();
    computer.collapse(sample()).unwrap();
    assert_eq!(to, computer.value().unwrap());
    computer.reset().unwrap();
}

fn constant1(x: i32) -> i32 {
    assert!(x == 0 || x == 1);

    0
}

fn constant2(x: i32) -> i32 {
    assert!(x == 0 || x == 1);

    1
}

fn balanced1(x: i32) -> i32 {
    assert!(x == 0 || x == 1);

    x
}

fn balanced2(x: i32) -> i32 {
    assert!(x == 0 || x == 1);

    1 - x
}

#[test]
fn deutsch_test() {
    assert_eq!(
        DeutschAlgorithmOutput::Constant,
        deutsch_algorithm(constant1, sample()).unwrap()
    );
    assert_eq!(
        DeutschAlgorithmOutput::Constant,
        deutsch_algorithm(constant2, sample()).unwrap()
    );
    assert_eq!(
        DeutschAlgorithmOutput::Balanced,
        deutsch_algorithm(balanced1, sample()).unwrap()
    );
    assert_eq!(
        DeutschAlgorithmOutput::Balanced,
        deutsch_algorithm(balanced2, sample()).unwrap()
    );
}

#[test]
fn complex_test() {
    assert_eq!(c(4f64, 6f64), c(1f64, 2f64) + c(3f64, 4f64));
    assert_eq!(c(-5f64, 10f64), c(1f64, 2f64) * c(3f64, 4f64));
    assert_eq!(F(5f64), c(1f64, 2f64).norm_sqr());

    let mut z = c(1f64, 2f64);
    z += c(3f64, 4f64);
    assert_eq!(z, c(4f64, 6f64));

    let x = Complex::<F>::nth_root_of_unity(15);
    assert!(Complex::one().approx_eq(&x.pow(15)));

    assert_eq!(Complex::one(), c(7f64, 8f64).pow(0));
}

#[test]
fn matrix_test() {
    let m = m_real(2, &[1.0, 2.0, 3.0, 4.0]);

    let mut v: Vector<F> = [Complex::zero(); MAX_SIZE];
    v[0] = c(10f64, 0f64);
    v[1] = c(20f64, 0f64);

    let mut expected: Vector<F> = [Complex::zero(); MAX_SIZE];
    expected[0] = c(50f64, 0f64);
    expected[1] = c(110f64, 0f64);

    let added = m_real(2, &[2.0, 4.0, 6.0, 8.0]);

    let squared = m_real(2, &[7.0, 10.0, 15.0, 22.0]);

    assert_eq!(added, m.add(&m).unwrap());
    assert_eq!(squared, m.multiply(&m).unwrap());
    assert_eq!(expected, m.multiply_vector(&v).unwrap());
}

#[test]
fn embed_test() {
    let mut m = m_real(2, &[1.0, 2.0, 3.0, 4.0]);
    let n = m_real(1, &[5.0]);

    m.embed(&n, 1, 1).unwrap();

    assert_eq!(m_real(2, &[1.0, 2.0, 3.0, 5.0]), m);
}

#[test]
fn matrix_permutation_test() {
    let m = m_real(2, &[1.0, 2.0, 3.0, 4.0]);

    assert_eq!(m_real(2, &[1.0, 2.0, 3.0, 4.0]), m.permute_rows(vec![0, 1]).unwrap());
    assert_eq!(m_real(2, &[3.0, 4.0, 1.0, 2.0]), m.permute_rows(vec![1, 0]).unwrap());

    assert_eq!(m_real(2, &[1.0, 2.0, 3.0, 4.0]), m.permute_columns(vec![0, 1]).unwrap());
    assert_eq!(m_real(2, &[2.0, 1.0, 4.0, 3.0]), m.permute_columns(vec![1, 0]).unwrap());
}

#[test]
fn bad_row_permutation_test() {
    let m = m_real(2, &[1.0, 2.0, 3.0, 4.0]);

    assert_eq!(Err(QuantumError::InvalidPermutation), m.permute_rows(vec![0, 0]));
}

#[test]
fn bad_column_permutation_test() {
    let m = m_real(2, &[1.0, 2.0, 3.0, 4.0]);

    assert_eq!(Err(QuantumError::InvalidPermutation), m.permute_columns(vec![0, 0]));
}

#[test]
fn computer_state_test() {
    let mut c = QuantumComputer::<F>::new(3).unwrap();
    assert_eq!(State::Initializing, c.state());

    c.initialize(5).unwrap();
    assert_eq!(State::Running, c.state());

    c.collapse(sample()).unwrap();
    assert_eq!(State::Collapsed, c.state());

    c.value().unwrap();

    c.reset().unwrap();
    assert_eq!(State::Initializing, c.state());
}

#[test]
fn compute_test() {
    let mut c = QuantumComputer::<F>::new(3).unwrap();

    c.initialize(5).unwrap();

    c.apply(identity(3).unwrap()).unwrap();

    c.collapse(sample()).unwrap();

    assert_eq!(5, c.value().unwrap());
}

#[test]
fn computer_probabilities_test() {
    let mut c = QuantumComputer::<F>::new(1).unwrap();

    c.initialize(0).unwrap();

    c.apply(hadamard(1).unwrap()).unwrap();

    assert_eq!(2, c.probabilities().unwrap().len());
    assert!(0.5f64.approx_eq_ulps(&c.probabilities().unwrap()[0].0, 10));
    assert!(0.5f64.approx_eq_ulps(&c.probabilities().unwrap()[1].0, 10));
}

#[test]
fn identity_test() {
    let id_gate = identity(3).unwrap();
    let mut ket = Ket::<F>::new(8).unwrap();
    ket.elements[5] = c(99f64, 0f64);

    let expected = ket.clone();

    ket.apply(id_gate).unwrap();

    assert_eq!(expected, ket);
}

#[test]
fn hadamard_test() {
    let mut c = QuantumComputer::<F>::new(1).unwrap();

    c.initialize(0).unwrap();
    c.apply(hadamard(1).unwrap()).unwrap();

    assert!(0.5f64.approx_eq_ulps(&c.probabilities().unwrap()[0].0, 10));
    assert!(0.5f64.approx_eq_ulps(&c.probabilities().unwrap()[1].0, 10));
}

#[test]
fn pauli_x_test() {
    let mut c = QuantumComputer::<F>::new(1).unwrap();

    // |0> goes to |1>
    test_gate(&mut c, pauli_x(), 0, 1);

    // |1> goes to |0>
    test_gate(&mut c, pauli_x(), 1, 0);
}

#[test]
fn pauli_y_test() {
    let mut c = QuantumComputer::<F>::new(1).unwrap();

    // |0> goes to i|1>
    test_gate(&mut c, pauli_y(), 0, 1);

    // |1> goes to -i|0>
    test_gate(&mut c, pauli_y(), 1, 0);
}

#[test]
fn pauli_z_test() {
    let mut c = QuantumComputer::<F>::new(1).unwrap();

    // |0> goes to |0>
    test_gate(&mut c, pauli_z(), 0, 0);

    // |1> goes to -|1>
    test_gate(&mut c, pauli_z(), 1, 1);
}

#[test]
fn phase_shift_test() {
    let phi = F(0.3f64);
    let mut c = QuantumComputer::<F>::new(1).unwrap();

    // |0> goes to |0>
    test_gate(&mut c, phase_shift(phi), 0, 0);

    // |1> goes to exp(i * phi)|1>
    test_gate(&mut c, phase_shift(phi), 1, 1);
}

#[test]
fn swap_test() {
    let mut c = QuantumComputer::<F>::new(2).unwrap();

    // |00> goes to |00>
    test_gate(&mut c, swap(), 0, 0);

    // |01> goes to |10>
    test_gate(&mut c, swap(), 2, 1);
}

#[test]
fn sqrt_swap_test() {
    let mut c = QuantumComputer::<F>::new(2).unwrap();

    // |00> goes to |00>
    test_gate(&mut c, sqrt_swap(), 0, 0);

    // |11> goes to |11>
    test_gate(&mut c, sqrt_swap(), 3, 3);
}

#[test]
fn controlled_not_test() {
    let mut c = QuantumComputer::<F>::new(2).unwrap();

    // |00> goes to |00>
    test_gate(&mut c, controlled_not(), 0, 0);

    // |01> goes to |01>
    test_gate(&mut c, controlled_not(), 1, 1);

    // |10> goes to |11>
    test_gate(&mut c, controlled_not(), 2, 3);

    // |11> goes to |10>
    test_gate(&mut c, controlled_not(), 3, 2);
}

#[test]
fn controlled_test() {
    let g = controlled(&m_real(2, &[0.0, 1.0, 1.0, 0.0])).unwrap();

    assert_eq!(controlled_not(), g);
}

#[test]
fn toffoli_test() {
    let mut c = QuantumComputer::<F>::new(3).unwrap();

    // |000> goes to |000>
    test_gate(&mut c, toffoli(), 0, 0);

    // |010> goes to |010>
    test_gate(&mut c, toffoli(), 2, 2);

    // |011> goes to |111>
    test_gate(&mut c, toffoli(), 6, 7);

    // |111> goes to |011>
    test_gate(&mut c, toffoli(), 7, 6);
}

#[test]
fn fredkin_test() {
    let mut c = QuantumComputer::<F>::new(3).unwrap();

    // |000> goes to |000>
    test_gate(&mut c, fredkin(), 0, 0);

    // |101> goes to |011>
    test_gate(&mut c, fredkin(), 5, 6);

    // |011> goes to |101>
    test_gate(&mut c, fredkin(), 6, 5);

    // |111> goes to |111>
    test_gate(&mut c, fredkin(), 7, 7);
}

#[test]
fn quantum_fourier_transform_test() {
    let qft = quantum_fourier_transform::<F>(2).unwrap();

    // qft(2) = (1/2) * |1  1  1  1|
    //                  |1  i -1 -i|
    //                  |1 -1  1 -1|
    //                  |1 -i -1  i|
    //
    assert!(c(0.5f64, 0.0f64).approx_eq(&qft.matrix().get(3, 0)));
    assert!(c(0.0f64, -0.5f64).approx_eq(&qft.matrix().get(3, 1)));
    assert!(c(-0.5f64, 0.0f64).approx_eq(&qft.matrix().get(3, 2)));
    assert!(c(0.0f64, 0.5f64).approx_eq(&qft.matrix().get(3, 3)));
}

#[test]
fn gates_permutation_test() {
    let mut c = QuantumComputer::<F>::new(2).unwrap();

    let flipped_controlled_not = controlled_not().permute(vec![2, 3, 0, 1]).unwrap();

    // |01> goes to |11>
    test_gate(&mut c, flipped_controlled_not, 1, 3);
}

#[test]
fn valid_test() {
    let mut valid = Ket::<F>::new(3).unwrap();
    valid.elements[0] = Complex::zero();
    valid.elements[1] = Complex::zero();
    valid.elements[2] = Complex::one();

    let mut invalid = Ket::<F>::new(3).unwrap();
    invalid.elements[0] = c(0.5, 0.0);
    invalid.elements[1] = c(0.0, 0.5);

    assert!(valid.is_valid());
    assert_eq!(false, invalid.is_valid());
}

#[test]
fn classical_test() {
    let sqrt2inv = 2.0f64.sqrt().recip();

    let mut classical = Ket::<F>::new(3).unwrap();
    classical.elements[0] = Complex::zero();
    classical.elements[1] = Complex::zero();
    classical.elements[2] = Complex::one();

    let mut nonclassical1 = Ket::<F>::new(2).unwrap();
    nonclassical1.elements[0] = c(sqrt2inv, 0.0);
    nonclassical1.elements[1] = c(0.0, sqrt2inv);

    let mut nonclassical2 = Ket::<F>::new(2).unwrap();
    nonclassical2.elements[0] = c(0.5, 0.5);
    nonclassical2.elements[1] = c(0.5, 0.5);

    assert!(classical.is_classical().unwrap());
    assert_eq!(false, nonclassical1.is_classical().unwrap());
    assert_eq!(false, nonclassical2.is_classical().unwrap());
}

#[test]
fn from_classical_test() {
    let r: ClassicalRegister = ClassicalRegister::new(vec![0, 1]).unwrap();

    let mut expected = Ket::<F>::new(4).unwrap();
    expected.elements[0] = Complex::zero();
    expected.elements[1] = Complex::zero();
    expected.elements[2] = Complex::one();
    expected.elements[3] = Complex::zero();

    assert!(Ket::<F>::from_classical(&r).unwrap().is_classical().unwrap());
    assert_eq!(expected, Ket::from_classical(&r).unwrap());
}

#[test]
fn registers_initialization_test() {
    let nibble = ClassicalRegister::zeroed(4);
    let r: QuantumRegister<F> = QuantumRegister::new(4, &nibble).unwrap();

    assert_eq!(false, r.collapsed());
    assert_eq!(4, r.width());
    assert!(r.ket().is_classical().unwrap());
}

#[test]
fn registers_collapse_test() {
    let nibble = ClassicalRegister::zeroed(4);
    let mut r: QuantumRegister<F> = QuantumRegister::new(4, &nibble).unwrap();
    let end: ClassicalRegister = r.collapse(sample()).unwrap();

    // We haven't performed any operations on the quantum register, therefore
    // it should remain unchanged upon collapse.
    assert_eq!(nibble, end);
    assert!(r.collapsed());
}

#[test]
fn registers_double_collapse_test() {
    let nibble = ClassicalRegister::zeroed(4);
    let mut r: QuantumRegister<F> = QuantumRegister::new(4, &nibble).unwrap();
    r.collapse(sample()).unwrap();
    assert_eq!(Err(QuantumError::ProtocolViolation), r.collapse(sample()));
}

#[test]
fn registers_probabilities_test() {
    // We zero-initialize our single qubit, then apply the Hadamard gate to
    // achieve a symmetrical system where each of the two possible states is
    // equally likely.
    let nibble = ClassicalRegister::zeroed(1);
    let mut r: QuantumRegister<F> = QuantumRegister::new(1, &nibble).unwrap();
    r.apply(hadamard(1).unwrap()).unwrap();

    // Now we test that the probabilities are balanced, i.e. equal to vec![0.5, 0.5]
    assert_eq!(2, r.probabilities().unwrap().len());
    assert!(0.5f64.approx_eq_ulps(&r.probabilities().unwrap()[0].0, 10));
    assert!(0.5f64.approx_eq_ulps(&r.probabilities().unwrap()[1].0, 10));
}

#[test]
fn register_initialization_test() {
    let nibble = ClassicalRegister::zeroed(4);
    let r: QuantumRegister<F> = QuantumRegister::new(4, &nibble).unwrap();

    assert_eq!(false, r.collapsed());
    assert_eq!(4, r.width());
    assert!(r.ket().is_classical().unwrap());
}

#[test]
fn register_collapse_test() {
    let nibble = ClassicalRegister::zeroed(4);
    let mut r: QuantumRegister<F> = QuantumRegister::new(4, &nibble).unwrap();
    let end: ClassicalRegister = r.collapse(sample()).unwrap();

    // We haven't performed any operations on the quantum register, therefore
    // it should remain unchanged upon collapse.
    assert_eq!(nibble, end);
    assert!(r.collapsed());
}

#[test]
fn register_double_collapse_test() {
    let nibble = ClassicalRegister::zeroed(4);
    let mut r: QuantumRegister<F> = QuantumRegister::new(4, &nibble).unwrap();
    r.collapse(sample()).unwrap();
    assert_eq!(Err(QuantumError::ProtocolViolation), r.collapse(sample()));
}

#[test]
fn other_initialization_test() {
    let sqrt2inv = F(2.0f64.sqrt().recip());

    let q1 = NonEntangledQubit::new(F(0.5), F(0.5), F(0.5), F(0.5)).unwrap();
    let q2 = NonEntangledQubit::new(sqrt2inv, sqrt2inv, F(0.0), F(0.0)).unwrap();
    let q3 = NonEntangledQubit::new(F(0.0), F(0.0), sqrt2inv, sqrt2inv).unwrap();

    assert!(q1.validate());
    assert!(q2.validate());
    assert!(q3.validate());
}

#[test]
fn other_bad_initialization_test() {
    let r = NonEntangledQubit::new(F(0.0), F(0.0), F(0.0), F(0.0));
    assert_eq!(Some(QuantumError::InvariantViolation), r.err());
}

#[test]
fn qubit_initialization_test() {
    let sqrt2inv = F(2.0f64.sqrt().recip());

    let q1 = NonEntangledQubit::new(F(0.5), F(0.5), F(0.5), F(0.5)).unwrap();
    let q2 = NonEntangledQubit::new(sqrt2inv, sqrt2inv, F(0.0), F(0.0)).unwrap();
    let q3 = NonEntangledQubit::new(F(0.0), F(0.0), sqrt2inv, sqrt2inv).unwrap();

    assert!(q1.validate());
    assert!(q2.validate());
    assert!(q3.validate());
}

#[test]
fn qubit_bad_initialization_test() {
    let r = NonEntangledQubit::new(F(0.0), F(0.0), F(0.0), F(0.0));
    assert_eq!(Some(QuantumError::InvariantViolation), r.err());
}

#[test]
fn registers_state_test() {
    let nibble = ClassicalRegister::new(vec![0, 1, 0, 1]).unwrap();

    assert_eq!(10, nibble.state());
    assert_eq!(nibble, ClassicalRegister::from_state(4, nibble.state()).unwrap());
}

#[test]
fn tolerance_test() {
    // The tolerance of `approx_eq` is one in a million millions.
    assert_eq!(0.000000000001f64, 1.0f64 / 1_000_000_000_000u64 as f64);

    assert!(c(1.0, 2.0).approx_eq(&c(1.0 + 0.5e-12, 2.0 - 0.5e-12)));
    assert!(!c(1.0, 2.0).approx_eq(&c(1.0 + 2e-12, 2.0)));
    assert!(!c(1.0, 2.0).approx_eq(&c(1.0, 2.0 - 2e-12)));
    assert!(!c(0.0, 0.0).approx_eq(&c(0.000000000001, 0.0)));
    assert!(!c(0.0, f64::NAN).approx_eq(&c(0.0, f64::NAN)));
}

#[test]
fn complex_arithmetic_test() {
    assert_eq!(c(0.0, 0.0), Complex::<F>::zero());
    assert_eq!(c(1.0, 0.0), Complex::<F>::one());
    assert_eq!(c(0.0, 1.0), Complex::<F>::i());
    assert_eq!(c(-1.0, 0.0), Complex::<F>::i() * Complex::i());
    assert_eq!(c(-1.0, -2.0), -c(1.0, 2.0));
    assert_eq!(F(3.0), c(3.0, 4.0).re());
    assert_eq!(F(4.0), c(3.0, 4.0).im());
    assert_eq!(F(25.0), c(3.0, 4.0).norm_sqr());

    let mut z = c(1.0, 2.0);
    z *= c(3.0, 4.0);
    assert_eq!(c(-5.0, 10.0), z);

    assert!(c(0.0, -0.0).equals(&Complex::zero()));
    assert!(!c(f64::NAN, 0.0).equals(&c(f64::NAN, 0.0)));
}

#[test]
fn complex_pow_test() {
    let z = c(1.0, 1.0);
    assert_eq!(c(1.0, 0.0), z.pow(0));
    assert_eq!(c(1.0, 1.0), z.pow(1));
    assert_eq!(c(0.0, 2.0), z.pow(2));
    assert_eq!(c(-2.0, 2.0), z.pow(3));
    assert_eq!(c(-4.0, 0.0), z.pow(4));
    assert_eq!(c(-4.0, -4.0), z.pow(5));
    assert_eq!(c(0.0, -8.0), z.pow(6));
    assert_eq!(c(16.0, 0.0), z.pow(8));
    assert_eq!(c(0.0, 32.0), z.pow(10));
    assert_eq!(c(0.0, 512.0), z.pow(18));
    assert_eq!(c(1.0, 0.0), Complex::<F>::i().pow(4_000_000_000));
    assert_eq!(c(0.0, -1.0), Complex::<F>::i().pow(3_000_000_003));
}

#[test]
fn polar_test() {
    assert_eq!(c(3.0, 4.0), Complex::from_polar_parts(F(5.0), F(0.6), F(0.8)));
    assert_eq!(c(2.0, 0.0), Complex::new_euler(F(2.0), F(0.0)));
    assert!(c(0.0, 1.0).approx_eq(&Complex::new_euler(F(1.0), F(std::f64::consts::FRAC_PI_2))));
    assert_eq!(Complex::one(), Complex::<F>::nth_root_of_unity(0));
    assert!(c(1.0, 0.0).approx_eq(&Complex::<F>::nth_root_of_unity(1)));
    assert!(c(-1.0, 0.0).approx_eq(&Complex::<F>::nth_root_of_unity(2)));
    assert!(c(0.0, 1.0).approx_eq(&Complex::<F>::nth_root_of_unity(4)));
}

#[test]
fn matrix_size_test() {
    assert_eq!(Some(QuantumError::Size), Matrix::<F>::new(MAX_SIZE + 1).err());
    assert_eq!(Some(QuantumError::Size), Matrix::<F>::identity(MAX_SIZE + 1).err());
    assert_eq!(
        Some(QuantumError::Size),
        Matrix::new_from_elements(2, vec![c(1.0, 0.0); 3]).err()
    );
    assert_eq!(
        Some(QuantumError::Size),
        Matrix::new_from_elements(MAX_SIZE + 1, vec![c(1.0, 0.0); 1089]).err()
    );
    assert_eq!(MAX_SIZE, Matrix::<F>::new(MAX_SIZE).unwrap().size());
    assert_eq!(0, Matrix::<F>::new(0).unwrap().size());
    assert_eq!(3, Matrix::<F>::identity(3).unwrap().size());
}

#[test]
fn matrix_elements_test() {
    let m = Matrix::new_from_elements(
        2,
        vec![c(1.0, 5.0), c(2.0, 6.0), c(3.0, 7.0), c(4.0, 8.0)],
    )
    .unwrap();
    assert_eq!(c(1.0, 5.0), m.get(0, 0));
    assert_eq!(c(2.0, 6.0), m.get(0, 1));
    assert_eq!(c(3.0, 7.0), m.get(1, 0));
    assert_eq!(c(4.0, 8.0), m.get(1, 1));

    // Outside the matrix the buffer holds zero.
    assert_eq!(Complex::zero(), m.get(0, 2));
    assert_eq!(Complex::zero(), m.get(2, 0));
    assert_eq!(Complex::zero(), m.get(MAX_SIZE - 1, MAX_SIZE - 1));

    let mut n = Matrix::<F>::new(2).unwrap();
    n.set(0, 0, c(1.0, 5.0));
    n.set(0, 1, c(2.0, 6.0));
    n.set(1, 0, c(3.0, 7.0));
    n.set(1, 1, c(4.0, 8.0));
    assert_eq!(m, n);

    let id = Matrix::<F>::identity(3).unwrap();
    for i in 0..3 {
        for j in 0..3 {
            assert_eq!(if i == j { Complex::one() } else { Complex::zero() }, id.get(i, j));
        }
    }
}

#[test]
fn matrix_equality_test() {
    let m = m_real(2, &[1.0, 2.0, 3.0, 4.0]);
    let n = m_real(2, &[1.0, 2.0, 3.0, 4.5]);
    let wide = m_real(3, &[1.0, 2.0, 0.0, 3.0, 4.0, 0.0, 0.0, 0.0, 0.0]);

    assert_eq!(Ok(true), m.equals(&m));
    assert_eq!(Ok(false), m.equals(&n));
    assert_eq!(Err(QuantumError::SizeMismatch), m.equals(&wide));
    assert!(m != n);
    assert!(m != wide);

    assert!(m.approx_eq(&m_real(2, &[1.0, 2.0, 3.0, 4.0 + 1e-13])));
    assert!(!m.approx_eq(&n));
    assert!(!m.approx_eq(&wide));
}

#[test]
fn matrix_size_mismatch_test() {
    let m = m_real(2, &[1.0, 2.0, 3.0, 4.0]);
    let n = m_real(1, &[1.0]);

    assert_eq!(Some(QuantumError::SizeMismatch), m.add(&n).err());
    assert_eq!(Some(QuantumError::SizeMismatch), m.multiply(&n).err());
    assert_eq!(Some(QuantumError::SizeMismatch), n.multiply(&m).err());
}

#[test]
fn matrix_product_order_test() {
    let a = m_real(2, &[1.0, 2.0, 3.0, 4.0]);
    let b = m_real(2, &[0.0, 1.0, 1.0, 0.0]);

    assert_eq!(m_real(2, &[2.0, 1.0, 4.0, 3.0]), a.multiply(&b).unwrap());
    assert_eq!(m_real(2, &[3.0, 4.0, 1.0, 2.0]), b.multiply(&a).unwrap());

    let z = Matrix::new_from_elements(
        2,
        vec![c(0.0, 1.0), c(0.0, 0.0), c(0.0, 0.0), c(0.0, 1.0)],
    )
    .unwrap();
    assert_eq!(m_real(2, &[-1.0, 0.0, 0.0, -1.0]), z.multiply(&z).unwrap());
}

#[test]
fn multiply_vector_tail_test() {
    let m = m_real(2, &[1.0, 2.0, 3.0, 4.0]);

    let mut v: Vector<F> = [Complex::zero(); MAX_SIZE];
    v[0] = c(1.0, 0.0);
    v[2] = c(1.0, 0.0);
    assert_eq!(Err(QuantumError::InvariantViolation), m.multiply_vector(&v));

    v[2] = c(0.0, 0.0);
    v[MAX_SIZE - 1] = c(0.0, 1.0);
    assert_eq!(Err(QuantumError::InvariantViolation), m.multiply_vector(&v));

    v[MAX_SIZE - 1] = c(-0.0, 0.0);
    let mut expected: Vector<F> = [Complex::zero(); MAX_SIZE];
    expected[0] = c(1.0, 0.0);
    expected[1] = c(3.0, 0.0);
    assert_eq!(Ok(expected), m.multiply_vector(&v));
}

#[test]
fn embed_block_test() {
    let mut m = Matrix::<F>::identity(4).unwrap();
    let block = m_real(2, &[5.0, 6.0, 7.0, 8.0]);

    m.embed(&block, 1, 2).unwrap();

    assert_eq!(
        m_real(
            4,
            &[
                1.0, 0.0, 0.0, 0.0, //
                0.0, 1.0, 5.0, 6.0, //
                0.0, 0.0, 7.0, 8.0, //
                0.0, 0.0, 0.0, 1.0,
            ]
        ),
        m
    );
}

#[test]
fn embed_out_of_bounds_test() {
    let mut m = m_real(2, &[1.0, 2.0, 3.0, 4.0]);
    let block = m_real(2, &[5.0, 6.0, 7.0, 8.0]);
    let wide = Matrix::<F>::identity(3).unwrap();

    assert_eq!(Err(QuantumError::Size), m.embed(&block, 1, 0));
    assert_eq!(Err(QuantumError::Size), m.embed(&block, 0, 1));
    assert_eq!(Err(QuantumError::Size), m.embed(&wide, 0, 0));
    assert_eq!(Err(QuantumError::Size), m.embed(&block, usize::MAX, 0));
    assert_eq!(m_real(2, &[1.0, 2.0, 3.0, 4.0]), m);

    assert_eq!(Ok(()), m.embed(&block, 0, 0));
    assert_eq!(block, m);
}

#[test]
fn permutation_transposition_test() {
    let m = m_real(3, &[1.0, 2.0, 3.0, 4.0, 5.0, 6.0, 7.0, 8.0, 9.0]);

    assert_eq!(
        m_real(3, &[7.0, 8.0, 9.0, 4.0, 5.0, 6.0, 1.0, 2.0, 3.0]),
        m.permute_rows(vec![2, 1, 0]).unwrap()
    );
    assert_eq!(
        m_real(3, &[3.0, 2.0, 1.0, 6.0, 5.0, 4.0, 9.0, 8.0, 7.0]),
        m.permute_columns(vec![2, 1, 0]).unwrap()
    );
    assert_eq!(m, m.permute_rows(vec![0, 1, 2]).unwrap());
    assert_eq!(m, m.permute_columns(vec![0, 1, 2]).unwrap());
}

#[test]
fn permutation_direction_test() {
    let m = m_real(3, &[1.0, 2.0, 3.0, 4.0, 5.0, 6.0, 7.0, 8.0, 9.0]);

    // Row 0 moves to row 1, row 1 to row 2 and row 2 to row 0.
    assert_eq!(
        m_real(3, &[7.0, 8.0, 9.0, 1.0, 2.0, 3.0, 4.0, 5.0, 6.0]),
        m.permute_rows(vec![1, 2, 0]).unwrap()
    );
    // Column 0 moves to column 1, column 1 to column 2 and column 2 to column 0.
    assert_eq!(
        m_real(3, &[3.0, 1.0, 2.0, 6.0, 4.0, 5.0, 9.0, 7.0, 8.0]),
        m.permute_columns(vec![1, 2, 0]).unwrap()
    );
}

#[test]
fn invalid_permutation_test() {
    let m = m_real(2, &[1.0, 2.0, 3.0, 4.0]);

    assert_eq!(Some(QuantumError::InvalidPermutation), m.permute_rows(vec![0, 2]).err());
    assert_eq!(Some(QuantumError::InvalidPermutation), m.permute_rows(vec![1, 1]).err());
    assert_eq!(Some(QuantumError::InvalidPermutation), m.permute_rows(vec![0]).err());
    assert_eq!(Some(QuantumError::InvalidPermutation), m.permute_rows(vec![0, 1, 2]).err());
    assert_eq!(Some(QuantumError::InvalidPermutation), m.permute_columns(vec![]).err());
    assert_eq!(
        Some(QuantumError::InvalidPermutation),
        m.permute_columns(vec![usize::MAX, 0]).err()
    );

    assert!(Matrix::<F>::permutation_valid(&vec![]));
    assert!(Matrix::<F>::permutation_valid(&vec![3, 0, 2, 1]));
    assert!(!Matrix::<F>::permutation_valid(&vec![3, 0, 3, 1]));
    assert!(!Matrix::<F>::permutation_valid(&vec![1, 2, 3]));
}

#[test]
fn ket_size_test() {
    assert_eq!(1, Ket::<F>::size(0));
    assert_eq!(2, Ket::<F>::size(1));
    assert_eq!(32, Ket::<F>::size(5));
    assert_eq!(1 << 20, Ket::<F>::size(20));

    assert_eq!(Some(QuantumError::Size), Ket::<F>::new(MAX_SIZE + 1).err());
    assert_eq!(MAX_SIZE, Ket::<F>::new(MAX_SIZE).unwrap().size);

    let wide = ClassicalRegister::zeroed(6);
    assert_eq!(Some(QuantumError::Size), Ket::<F>::from_classical(&wide).err());
    assert_eq!(32, Ket::<F>::from_classical(&ClassicalRegister::zeroed(5)).unwrap().size);
}

#[test]
fn ket_from_classical_index_test() {
    for state in 0..8u32 {
        let ket = Ket::<F>::from_classical(&ClassicalRegister::from_state(3, state).unwrap())
            .unwrap();
        assert_eq!(8, ket.size);
        for k in 0..MAX_SIZE {
            let expected = if k == state as usize { Complex::one() } else { Complex::zero() };
            assert_eq!(expected, ket.elements[k]);
        }
    }
}

#[test]
fn ket_invalid_is_not_classical_test() {
    let mut ket = Ket::<F>::new(2).unwrap();
    assert_eq!(Err(QuantumError::InvariantViolation), ket.is_classical());

    ket.elements[0] = c(1.0, 0.0);
    ket.elements[1] = c(1.0, 0.0);
    assert_eq!(Err(QuantumError::InvariantViolation), ket.is_classical());

    // Classical states are told by exact comparison: an amplitude of modulus
    // one other than one itself is none.
    ket.elements[1] = c(0.0, 0.0);
    assert_eq!(Ok(true), ket.is_classical());
    ket.elements[0] = c(0.0, 1.0);
    assert!(ket.is_valid());
    assert_eq!(Ok(false), ket.is_classical());
    ket.elements[0] = c(1.0 - f64::EPSILON, 0.0);
    assert!(ket.is_valid());
    assert_eq!(Ok(false), ket.is_classical());
}

#[test]
fn ket_apply_test() {
    let mut ket = Ket::<F>::new(2).unwrap();
    ket.elements[0] = c(3.0, 0.0);
    ket.elements[1] = c(4.0, 0.0);

    ket.apply(pauli_x()).unwrap();
    assert_eq!(c(4.0, 0.0), ket.elements[0]);
    assert_eq!(c(3.0, 0.0), ket.elements[1]);

    // An element past the matrix of a gate has to be zero.
    ket.elements[2] = c(1.0, 0.0);
    let before = ket;
    assert_eq!(Err(QuantumError::InvariantViolation), ket.apply(pauli_x()));
    assert_eq!(before, ket);
}

#[test]
fn gate_dimension_test() {
    assert_eq!(
        Some(QuantumError::DimensionMismatch),
        Gate::new(1, Matrix::<F>::identity(4).unwrap()).err()
    );
    assert_eq!(
        Some(QuantumError::DimensionMismatch),
        Gate::new(6, Matrix::<F>::identity(32).unwrap()).err()
    );
    assert_eq!(
        Some(QuantumError::DimensionMismatch),
        Gate::new(usize::MAX, Matrix::<F>::identity(1).unwrap()).err()
    );

    let gate = Gate::new(2, Matrix::<F>::identity(4).unwrap()).unwrap();
    assert_eq!(2, gate.width());
    assert_eq!(&Matrix::<F>::identity(4).unwrap(), gate.matrix());
    assert!(Gate::new(0, Matrix::<F>::identity(1).unwrap()).is_ok());
    assert!(Gate::new(5, Matrix::<F>::identity(32).unwrap()).is_ok());
}

#[test]
fn gate_permute_test() {
    let gate = pauli_z::<F>();
    let permuted = gate.permute(vec![1, 0]).unwrap();
    assert_eq!(1, permuted.width());
    assert_eq!(&m_real(2, &[0.0, -1.0, 1.0, 0.0]), permuted.matrix());

    assert_eq!(Some(QuantumError::InvalidPermutation), gate.permute(vec![1, 1]).err());
    assert_eq!(Some(QuantumError::InvalidPermutation), gate.permute(vec![0, 1, 2]).err());
}

#[test]
fn gate_matrices_test() {
    let h = 2.0f64.sqrt().recip();
    assert_eq!(&m_real(1, &[1.0]), hadamard::<F>(0).unwrap().matrix());
    assert_eq!(&m_real(2, &[h, h, h, -h]), hadamard::<F>(1).unwrap().matrix());
    assert_eq!(
        &m_real(
            4,
            &[
                0.5, 0.5, 0.5, 0.5, //
                0.5, -0.5, 0.5, -0.5, //
                0.5, 0.5, -0.5, -0.5, //
                0.5, -0.5, -0.5, 0.5,
            ]
        ),
        hadamard::<F>(2).unwrap().matrix()
    );
    assert_eq!(Some(QuantumError::Size), hadamard::<F>(3).err());

    assert_eq!(&Matrix::<F>::identity(8).unwrap(), identity::<F>(3).unwrap().matrix());
    assert_eq!(Some(QuantumError::Size), identity::<F>(6).err());

    assert_eq!(&m_real(2, &[0.0, 1.0, 1.0, 0.0]), pauli_x::<F>().matrix());
    assert_eq!(c(0.0, -1.0), pauli_y::<F>().matrix().get(0, 1));
    assert_eq!(c(0.0, 1.0), pauli_y::<F>().matrix().get(1, 0));
    assert_eq!(&m_real(2, &[1.0, 0.0, 0.0, -1.0]), pauli_z::<F>().matrix());
    assert_eq!(c(0.5, 0.5), sqrt_swap::<F>().matrix().get(1, 1));
    assert_eq!(c(0.5, -0.5), sqrt_swap::<F>().matrix().get(1, 2));
    assert_eq!(controlled_not::<F>(), controlled_x());
    assert_eq!(c(0.0, -1.0), controlled_y::<F>().matrix().get(2, 3));
    assert_eq!(c(-1.0, 0.0), controlled_z::<F>().matrix().get(3, 3));
    assert_eq!(
        Some(QuantumError::DimensionMismatch),
        controlled(&Matrix::<F>::identity(4).unwrap()).err()
    );
    assert_eq!(Some(QuantumError::Size), quantum_fourier_transform::<F>(6).err());
}

#[test]
fn register_construction_test() {
    let nibble = ClassicalRegister::zeroed(4);
    assert_eq!(
        Some(QuantumError::WidthMismatch),
        QuantumRegister::<F>::new(3, &nibble).err()
    );
    assert_eq!(
        Some(QuantumError::Size),
        QuantumRegister::<F>::new(6, &ClassicalRegister::zeroed(6)).err()
    );

    let r = QuantumRegister::<F>::new(
        3,
        &ClassicalRegister::from_state(3, 6).unwrap(),
    )
    .unwrap();
    assert_eq!(Complex::one(), r.ket().elements[6]);
    assert_eq!(8, r.ket().size);
}

#[test]
fn register_apply_test() {
    let mut r = QuantumRegister::<F>::new(1, &ClassicalRegister::zeroed(1)).unwrap();

    assert_eq!(Err(QuantumError::DimensionMismatch), r.apply(swap()));
    assert_eq!(Ok(()), r.apply(pauli_x()));
    assert_eq!(vec![F(0.0), F(1.0)], r.probabilities().unwrap());

    r.collapse(F(0.5)).unwrap();
    assert_eq!(Err(QuantumError::ProtocolViolation), r.apply(pauli_x()));
    assert_eq!(Err(QuantumError::ProtocolViolation), r.apply(swap()));
    assert_eq!(Some(QuantumError::ProtocolViolation), r.probabilities().err());
}

#[test]
fn collapse_sampling_test() {
    // After a Hadamard gate the two states have probability one half each:
    // the samples below one half collapse to state 0, the others to state 1.
    for (sample, state) in [(0.0, 0), (0.25, 0), (0.49, 0), (0.51, 1), (0.75, 1), (0.99, 1)] {
        let mut r = QuantumRegister::<F>::new(1, &ClassicalRegister::zeroed(1)).unwrap();
        r.apply(hadamard(1).unwrap()).unwrap();
        assert_eq!(state, r.collapse(F(sample)).unwrap().state());
    }
}

#[test]
fn collapse_fallback_test() {
    // A sample that no cumulative probability exceeds collapses to state 0.
    let mut r = QuantumRegister::<F>::new(2, &ClassicalRegister::from_state(2, 3).unwrap())
        .unwrap();
    assert_eq!(0, r.collapse(F(1.0)).unwrap().state());

    let mut r = QuantumRegister::<F>::new(2, &ClassicalRegister::from_state(2, 3).unwrap())
        .unwrap();
    assert_eq!(3, r.collapse(F(0.999)).unwrap().state());

    let mut r = QuantumRegister::<F>::new(2, &ClassicalRegister::from_state(2, 3).unwrap())
        .unwrap();
    assert_eq!(0, r.collapse(F(f64::NAN)).unwrap().state());
}

#[test]
fn probabilities_sum_test() {
    let mut r = QuantumRegister::<F>::new(2, &ClassicalRegister::from_state(2, 1).unwrap())
        .unwrap();
    r.apply(hadamard(2).unwrap()).unwrap();
    r.apply(sqrt_swap()).unwrap();
    r.apply(quantum_fourier_transform(2).unwrap()).unwrap();

    let probabilities = r.probabilities().unwrap();
    assert_eq!(4, probabilities.len());
    let sum: f64 = probabilities.iter().map(|p| p.0).sum();
    assert!(sum.approx_eq_ulps(&1.0, 10));
    assert!(r.ket().is_valid());

    for width in 0..=5 {
        let r = QuantumRegister::<F>::new(width, &ClassicalRegister::zeroed(width)).unwrap();
        assert_eq!(1 << width, r.probabilities().unwrap().len());
    }
}

#[test]
fn hadamard_statistics_test() {
    let mut ones = 0;
    for _ in 0..1000 {
        let mut c = QuantumComputer::<F>::new(1).unwrap();
        c.initialize(0).unwrap();
        c.apply(hadamard(1).unwrap()).unwrap();
        c.collapse(sample()).unwrap();
        if c.value().unwrap() == 1 {
            ones += 1;
        }
    }
    assert!(400 <= ones && ones <= 600);
}

#[test]
fn sample_range_test() {
    for _ in 0..1000 {
        let s = sample();
        assert!(0.0 <= s.0 && s.0 < 1.0);
    }
}

#[test]
fn deterministic_gates_test() {
    let mut c = QuantumComputer::<F>::new(2).unwrap();
    test_gate(&mut c, swap(), 3, 3);
    test_gate(&mut c, swap(), 1, 2);

    let mut c = QuantumComputer::<F>::new(3).unwrap();
    test_gate(&mut c, identity(3).unwrap(), 5, 5);
    for state in 0..6 {
        test_gate(&mut c, toffoli(), state, state);
    }
}

#[test]
fn computer_protocol_test() {
    assert_eq!(Some(QuantumError::Size), QuantumComputer::<F>::new(6).err());

    let mut c = QuantumComputer::<F>::new(2).unwrap();
    assert_eq!(Err(QuantumError::ProtocolViolation), c.apply(swap()));
    assert_eq!(Err(QuantumError::ProtocolViolation), c.collapse(F(0.5)));
    assert_eq!(Err(QuantumError::ProtocolViolation), c.reset());
    assert_eq!(Err(QuantumError::ProtocolViolation), c.value());
    assert_eq!(Some(QuantumError::ProtocolViolation), c.probabilities().err());
    assert_eq!(Err(QuantumError::Range), c.initialize(4));
    assert_eq!(State::Initializing, c.state());

    assert_eq!(Ok(()), c.initialize(2));
    assert_eq!(Err(QuantumError::ProtocolViolation), c.initialize(2));
    assert_eq!(Err(QuantumError::ProtocolViolation), c.reset());
    assert_eq!(Err(QuantumError::ProtocolViolation), c.value());
    assert_eq!(Err(QuantumError::DimensionMismatch), c.apply(pauli_x()));
    assert_eq!(State::Running, c.state());
    assert_eq!(vec![F(0.0), F(0.0), F(1.0), F(0.0)], c.probabilities().unwrap());

    assert_eq!(Ok(()), c.collapse(F(0.5)));
    for _ in 0..3 {
        assert_eq!(Err(QuantumError::ProtocolViolation), c.collapse(F(0.5)));
        assert_eq!(State::Collapsed, c.state());
    }
    assert_eq!(Err(QuantumError::ProtocolViolation), c.apply(swap()));
    assert_eq!(Err(QuantumError::ProtocolViolation), c.initialize(2));
    assert_eq!(Some(QuantumError::ProtocolViolation), c.probabilities().err());
    assert_eq!(Ok(2), c.value());

    assert_eq!(Ok(()), c.reset());
    assert_eq!(State::Initializing, c.state());
    assert_eq!(Ok(()), c.initialize(1));
    assert_eq!(Ok(()), c.collapse(F(0.5)));
    assert_eq!(Ok(1), c.value());
}

#[test]
fn deutsch_values_test() {
    assert_eq!(
        Some(QuantumError::InvalidBit),
        deutsch_gate_for::<F>(2, 0).err()
    );
    assert_eq!(
        Some(QuantumError::InvalidBit),
        deutsch_algorithm_for(0, -1, F(0.5)).err()
    );
    assert_eq!(&Matrix::<F>::identity(4).unwrap(), deutsch_gate_for::<F>(0, 0).unwrap().matrix());
    assert_eq!(
        &m_real(
            4,
            &[
                0.0, 1.0, 0.0, 0.0, //
                1.0, 0.0, 0.0, 0.0, //
                0.0, 0.0, 1.0, 0.0, //
                0.0, 0.0, 0.0, 1.0,
            ]
        ),
        deutsch_gate(constant_on_zero).unwrap().matrix()
    );
    assert_eq!(controlled_not::<F>().matrix(), deutsch_gate_for::<F>(0, 1).unwrap().matrix());
    for sample in [0.0, 0.3, 0.7, 0.999] {
        assert_eq!(Ok(DeutschAlgorithmOutput::Constant), deutsch_algorithm_for(1, 1, F(sample)));
        assert_eq!(Ok(DeutschAlgorithmOutput::Balanced), deutsch_algorithm_for(1, 0, F(sample)));
    }
}

fn constant_on_zero(x: i32) -> i32 {
    1 - x
}

/// The product of two complex numbers, written out on pairs of floats.
fn pair_times(a: (f64, f64), b: (f64, f64)) -> (f64, f64) {
    (a.0 * b.0 - a.1 * b.1, a.0 * b.1 + a.1 * b.0)
}

/// The power of a complex number by repeated squaring, written out on pairs
/// of floats: the factors of the largest power of two in `n` by squaring, the
/// rest by the power of the remainder.
fn pair_pow(z: (f64, f64), n: u32) -> (f64, f64) {
    if n == 0 {
        (1.0, 0.0)
    } else if n < 5 {
        let mut x = (1.0, 0.0);
        for _ in 0..n {
            x = pair_times(x, z);
        }
        x
    } else {
        let l = 31 - n.leading_zeros();
        let r = n - (1 << l);
        let mut x = z;
        for _ in 0..l {
            x = pair_times(x, x);
        }
        pair_times(pair_pow(z, r), x)
    }
}

fn random_pair() -> (f64, f64) {
    (rand::random::<f64>() * 4.0 - 2.0, rand::random::<f64>() * 4.0 - 2.0)
}

fn same_bits(expected: (f64, f64), z: Complex<F>) -> bool {
    expected.0.to_bits() == z.re().0.to_bits() && expected.1.to_bits() == z.im().0.to_bits()
}

#[test]
fn pow_order_of_multiplications_test() {
    for _ in 0..200 {
        let z = random_pair();
        let n = rand::random::<u32>() % 200;
        assert!(same_bits(pair_pow(z, n), c(z.0, z.1).pow(n)));
    }
    for n in [5, 7, 8, 9, 31, 32, 33, 1023, 1024, 65_537, u32::MAX] {
        let z = (0.999_999, 0.000_123);
        assert!(same_bits(pair_pow(z, n), c(z.0, z.1).pow(n)));
    }
}

#[test]
fn product_order_of_additions_test() {
    for size in 0..=6usize {
        let a: Vec<(f64, f64)> = (0..size * size).map(|_| random_pair()).collect();
        let b: Vec<(f64, f64)> = (0..size * size).map(|_| random_pair()).collect();
        let v: Vec<(f64, f64)> = (0..size).map(|_| random_pair()).collect();

        let m = Matrix::new_from_elements(size, a.iter().map(|z| c(z.0, z.1)).collect()).unwrap();
        let n = Matrix::new_from_elements(size, b.iter().map(|z| c(z.0, z.1)).collect()).unwrap();
        let mut buffer: Vector<F> = [Complex::zero(); MAX_SIZE];
        for k in 0..size {
            buffer[k] = c(v[k].0, v[k].1);
        }

        let sum = m.add(&n).unwrap();
        let product = m.multiply(&n).unwrap();
        let image = m.multiply_vector(&buffer).unwrap();
        for i in 0..size {
            let mut entry = (0.0, 0.0);
            for k in 0..size {
                let term = pair_times(a[i * size + k], v[k]);
                entry = (entry.0 + term.0, entry.1 + term.1);
            }
            assert!(same_bits(entry, image[i]));

            for j in 0..size {
                let x = a[i * size + j];
                let y = b[i * size + j];
                assert!(same_bits((x.0 + y.0, x.1 + y.1), sum.get(i, j)));

                let mut entry = (0.0, 0.0);
                for k in 0..size {
                    let term = pair_times(a[i * size + k], b[k * size + j]);
                    entry = (entry.0 + term.0, entry.1 + term.1);
                }
                assert!(same_bits(entry, product.get(i, j)));
            }
        }
        for i in size..MAX_SIZE {
            assert_eq!(Complex::zero(), image[i]);
        }
    }
}

#[test]
fn collapse_walks_in_state_order_test() {
    for _ in 0..200 {
        // A register of two qubits in a random superposition.
        let amplitudes: Vec<(f64, f64)> = (0..4).map(|_| random_pair()).collect();
        let norm: f64 = amplitudes.iter().map(|z| z.0 * z.0 + z.1 * z.1).sum::<f64>().sqrt();
        let elements: Vec<Complex<F>> = (0..16)
            .map(|k| if k % 4 == 0 { c(amplitudes[k / 4].0 / norm, amplitudes[k / 4].1 / norm) } else { Complex::zero() })
            .collect();
        let gate = Gate::new(2, Matrix::new_from_elements(4, elements).unwrap()).unwrap();
        let mut r = QuantumRegister::<F>::new(2, &ClassicalRegister::zeroed(2)).unwrap();
        r.apply(gate).unwrap();

        let u = sample();
        let mut cumulative = 0.0;
        let mut expected = 0;
        for state in 0..MAX_SIZE {
            let z = r.ket().elements[state];
            cumulative += z.re().0 * z.re().0 + z.im().0 * z.im().0;
            if u.0 < cumulative {
                expected = state as u32;
                break;
            }
        }
        assert_eq!(r.probabilities().unwrap().len(), 4);
        assert_eq!(expected, r.collapse(u).unwrap().state());
    }
}
