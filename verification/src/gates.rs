//! The common quantum gates.

use core::ops::Neg;
use vstd::arithmetic::power2::*;
use vstd::prelude::*;

use crate::complex::Complex;
use crate::error::QuantumError;
use crate::gate::Gate;
use crate::ket::Ket;
use crate::matrix::{
    embedded, grid_from_elements, identity_grid, is_square, Grid, Matrix, MAX_SIZE,
};
use crate::scalar::Real;

verus! {

/// The `n` by `n` grid of the real numbers `reals`, row by row.
pub open spec fn real_grid<R: Real>(n: nat, reals: Seq<R>) -> Grid<R> {
    Seq::new(
        n,
        |i: int| Seq::new(n, |j: int| Complex { re: reals[i * n + j], im: R::from_u64_spec(0) }),
    )
}

/// One half.
pub open spec fn half_spec<R: Real>() -> R {
    R::from_u64_spec(1).over_spec(R::from_u64_spec(2))
}

/// The inverse of the square root of `n`.
pub open spec fn inverse_root_spec<R: Real>(n: u64) -> R {
    R::from_u64_spec(1).over_spec(R::from_u64_spec(n).square_root_spec())
}

/// The matrix of the Hadamard gate on `n` qubits, for `n` up to 2.
pub open spec fn hadamard_grid<R: Real>(n: nat) -> Grid<R> {
    if n == 0 {
        identity_grid(1)
    } else if n == 1 {
        let h = inverse_root_spec::<R>(2);
        let m = h.negated_spec();
        real_grid(2, seq![h, h, h, m])
    } else {
        let h = half_spec::<R>();
        let m = h.negated_spec();
        real_grid(4, seq![h, h, h, h, h, m, h, m, h, h, m, m, h, m, m, h])
    }
}

/// The matrix of the Pauli-X gate, which exchanges the two states of a qubit.
pub open spec fn pauli_x_grid<R: Real>() -> Grid<R> {
    let z = R::from_u64_spec(0);
    let o = R::from_u64_spec(1);
    real_grid(2, seq![z, o, o, z])
}

/// The matrix of the Pauli-Y gate.
pub open spec fn pauli_y_grid<R: Real>() -> Grid<R> {
    let z = Complex::<R>::zero_spec();
    let i = Complex::<R>::i_spec();
    grid_from_elements(2, seq![z, i.negated_spec(), i, z])
}

/// The matrix of the Pauli-Z gate.
pub open spec fn pauli_z_grid<R: Real>() -> Grid<R> {
    let z = R::from_u64_spec(0);
    let o = R::from_u64_spec(1);
    real_grid(2, seq![o, z, z, o.negated_spec()])
}

/// The matrix of the phase-shift gate that multiplies the amplitude of `|1>`
/// by `phase`.
pub open spec fn phase_shift_grid<R: Real>(phase: Complex<R>) -> Grid<R> {
    let z = Complex::<R>::zero_spec();
    let o = Complex::<R>::one_spec();
    grid_from_elements(2, seq![o, z, z, phase])
}

/// The matrix of the swap gate, which exchanges two qubits.
pub open spec fn swap_grid<R: Real>() -> Grid<R> {
    let z = R::from_u64_spec(0);
    let o = R::from_u64_spec(1);
    real_grid(4, seq![o, z, z, z, z, z, o, z, z, o, z, z, z, z, z, o])
}

/// The matrix of the square root of the swap gate.
pub open spec fn sqrt_swap_grid<R: Real>() -> Grid<R> {
    let z = Complex::<R>::zero_spec();
    let o = Complex::<R>::one_spec();
    let a = Complex { re: half_spec::<R>(), im: half_spec::<R>() };
    let b = Complex { re: half_spec::<R>(), im: half_spec::<R>().negated_spec() };
    grid_from_elements(4, seq![o, z, z, z, z, a, b, z, z, b, a, z, z, z, z, o])
}

/// The matrix of the controlled-not gate.
pub open spec fn controlled_not_grid<R: Real>() -> Grid<R> {
    let z = R::from_u64_spec(0);
    let o = R::from_u64_spec(1);
    real_grid(4, seq![o, z, z, z, z, o, z, z, z, z, z, o, z, z, o, z])
}

/// The matrix of a gate that applies the one-qubit matrix `u` to the second
/// qubit where the first is set.
pub open spec fn controlled_grid<R: Real>(u: Grid<R>) -> Grid<R> {
    let z = R::from_u64_spec(0);
    let o = R::from_u64_spec(1);
    embedded(real_grid(4, seq![o, z, z, z, z, o, z, z, z, z, z, z, z, z, z, z]), u, 2, 2)
}

/// The matrix of the Toffoli gate, which applies a Pauli-X to the third qubit
/// where the first two are set.
pub open spec fn toffoli_grid<R: Real>() -> Grid<R> {
    embedded(identity_grid(8), pauli_x_grid(), 6, 6)
}

/// The matrix of the Fredkin gate.
pub open spec fn fredkin_grid<R: Real>() -> Grid<R> {
    embedded(identity_grid(8), pauli_x_grid(), 5, 5)
}

/// The matrix of the quantum Fourier transform of dimension `d` for a root of
/// unity `root`: the entry of row `i` and column `j` is the power `i * j` of
/// the root, scaled by the inverse of the square root of `d`.
pub open spec fn fourier_grid<R: Real>(d: nat, root: Complex<R>) -> Grid<R> {
    let scale = Complex { re: inverse_root_spec::<R>(d as u64), im: R::from_u64_spec(0) };
    Seq::new(
        d,
        |i: int| Seq::new(d, |j: int| scale.times_spec(root.pow_spec((i * j) as nat))),
    )
}

/// The matrix of the given size with the real numbers `reals`, row by row.
fn real_matrix<R: Real>(size: usize, reals: Vec<R>) -> (m: Matrix<R>)
    requires
        size <= MAX_SIZE,
        reals@.len() == size * size,
    ensures
        m@ == real_grid(size as nat, reals@),
{
    let mut elements: Vec<Complex<R>> = Vec::new();
    let mut k: usize = 0;
    while k < reals.len()
        invariant
            k <= reals.len(),
            elements@.len() == k,
            forall|t: int|
                0 <= t < k ==> elements@[t] == (Complex { re: reals@[t], im: R::from_u64_spec(0) }),
        decreases reals.len() - k,
    {
        elements.push(Complex::new(reals[k], R::from_u64(0)));
        k = k + 1;
    }
    match Matrix::new_from_elements(size, elements) {
        Ok(m) => {
            assert forall|i: int, j: int| 0 <= i < size && 0 <= j < size implies m@[i][j]
                == real_grid(size as nat, reals@)[i][j] by {
                assert(0 <= i * size + j < size * size) by (nonlinear_arith)
                    requires
                        0 <= i < size,
                        0 <= j < size,
                ;
            }
            assert(m@ =~~= real_grid(size as nat, reals@));
            m
        },
        Err(_) => unreached(),
    }
}

/// The matrix of the given size with the given elements, row by row.
fn complex_matrix<R: Real>(size: usize, elements: Vec<Complex<R>>) -> (m: Matrix<R>)
    requires
        size <= MAX_SIZE,
        elements@.len() == size * size,
    ensures
        m@ == grid_from_elements(size as nat, elements@),
{
    match Matrix::new_from_elements(size, elements) {
        Ok(m) => m,
        Err(_) => unreached(),
    }
}

/// A gate of the given width with a matrix that is known to fit it.
fn fixed_gate<R: Real>(width: usize, matrix: Matrix<R>) -> (g: Gate<R>)
    requires
        matrix@.len() == pow2(width as nat),
    ensures
        g.width_spec() == width,
        g.grid() == matrix@,
{
    match Gate::new(width, matrix) {
        Ok(g) => g,
        Err(_) => unreached(),
    }
}

/// One half.
fn half<R: Real>() -> (h: R)
    ensures
        h == half_spec::<R>(),
{
    R::from_u64(1).over(R::from_u64(2))
}

/// The inverse of the square root of `n`.
fn inverse_root<R: Real>(n: u64) -> (h: R)
    ensures
        h == inverse_root_spec::<R>(n),
{
    R::from_u64(1).over(R::from_u64(n).square_root())
}

/// The identity gate on `width` qubits, which leaves the state as it is.
///
/// The width is rejected when its `2^width` states exceed `MAX_SIZE`.
pub fn identity<R: Real>(width: usize) -> (r: Result<Gate<R>, QuantumError>)
    ensures
        match r {
            Ok(g) => {
                &&& pow2(width as nat) <= MAX_SIZE
                &&& g.width_spec() == width
                &&& g.grid() == identity_grid::<R>(pow2(width as nat))
            },
            Err(e) => pow2(width as nat) > MAX_SIZE && e == QuantumError::Size,
        },
{
    proof {
        lemma2_to64();
        if width > 5 {
            lemma_pow2_strictly_increases(5, width as nat);
        } else if width < 5 {
            lemma_pow2_strictly_increases(width as nat, 5);
        }
    }
    if width > 5 {
        return Err(QuantumError::Size);
    }
    match Matrix::identity(Ket::<R>::size(width)) {
        Ok(m) => Ok(fixed_gate(width, m)),
        Err(e) => Err(e),
    }
}

/// The Hadamard gate on `n` qubits.
///
/// It is known for up to two qubits: a larger `n` is rejected.
pub fn hadamard<R: Real>(n: usize) -> (r: Result<Gate<R>, QuantumError>)
    ensures
        match r {
            Ok(g) => n <= 2 && g.width_spec() == n && g.grid() == hadamard_grid::<R>(n as nat),
            Err(e) => n > 2 && e == QuantumError::Size,
        },
{
    proof {
        lemma2_to64();
    }
    if n == 0 {
        match Matrix::identity(1) {
            Ok(m) => Ok(fixed_gate(0, m)),
            Err(e) => Err(e),
        }
    } else if n == 1 {
        let h: R = inverse_root(2);
        let m = h.negated();
        Ok(fixed_gate(1, real_matrix(2, vec![h, h, h, m])))
    } else if n == 2 {
        let h: R = half();
        let m = h.negated();
        Ok(
            fixed_gate(
                2,
                real_matrix(4, vec![h, h, h, h, h, m, h, m, h, h, m, m, h, m, m, h]),
            ),
        )
    } else {
        Err(QuantumError::Size)
    }
}

/// The Pauli-X gate.
pub fn pauli_x<R: Real>() -> (g: Gate<R>)
    ensures
        g.width_spec() == 1,
        g.grid() == pauli_x_grid::<R>(),
{
    let z = R::from_u64(0);
    let o = R::from_u64(1);
    proof {
        lemma2_to64();
    }
    fixed_gate(1, real_matrix(2, vec![z, o, o, z]))
}

/// The Pauli-Y gate.
pub fn pauli_y<R: Real>() -> (g: Gate<R>)
    ensures
        g.width_spec() == 1,
        g.grid() == pauli_y_grid::<R>(),
{
    let z = Complex::zero();
    let i = Complex::i();
    let minus_i = i.neg();
    proof {
        lemma2_to64();
    }
    fixed_gate(1, complex_matrix(2, vec![z, minus_i, i, z]))
}

/// The Pauli-Z gate.
pub fn pauli_z<R: Real>() -> (g: Gate<R>)
    ensures
        g.width_spec() == 1,
        g.grid() == pauli_z_grid::<R>(),
{
    let z = R::from_u64(0);
    let o = R::from_u64(1);
    proof {
        lemma2_to64();
    }
    let m = o.negated();
    fixed_gate(1, real_matrix(2, vec![o, z, z, m]))
}

/// The phase-shift gate of one qubit for the angle `phi`, with the cosine
/// and the sine of `phi` that `R` computes.
pub fn phase_shift<R: Real>(phi: R) -> (g: Gate<R>)
    ensures
        g.width_spec() == 1,
        exists|phase: Complex<R>|
            Complex::is_polar(phase, R::from_u64_spec(1), phi) && g.grid() == phase_shift_grid(
                phase,
            ),
{
    let z = Complex::zero();
    let o = Complex::one();
    let phase = Complex::new_euler(R::from_u64(1), phi);
    proof {
        lemma2_to64();
    }
    let g = fixed_gate(1, complex_matrix(2, vec![o, z, z, phase]));
    assert(Complex::is_polar(phase, R::from_u64_spec(1), phi) && g.grid() == phase_shift_grid(
        phase,
    ));
    g
}

/// The swap gate of two qubits, which exchanges the first and the second
/// qubit.
pub fn swap<R: Real>() -> (g: Gate<R>)
    ensures
        g.width_spec() == 2,
        g.grid() == swap_grid::<R>(),
{
    let z = R::from_u64(0);
    let o = R::from_u64(1);
    proof {
        lemma2_to64();
    }
    fixed_gate(2, real_matrix(4, vec![o, z, z, z, z, z, o, z, z, o, z, z, z, z, z, o]))
}

/// The square root of the swap gate, which goes half-way through exchanging
/// two qubits.
pub fn sqrt_swap<R: Real>() -> (g: Gate<R>)
    ensures
        g.width_spec() == 2,
        g.grid() == sqrt_swap_grid::<R>(),
{
    let z = Complex::zero();
    let o = Complex::one();
    let a = Complex::new(half(), half());
    let b = Complex::new(half(), half::<R>().negated());
    proof {
        lemma2_to64();
    }
    fixed_gate(2, complex_matrix(4, vec![o, z, z, z, z, a, b, z, z, b, a, z, z, z, z, o]))
}

/// The controlled-not gate of two qubits.
pub fn controlled_not<R: Real>() -> (g: Gate<R>)
    ensures
        g.width_spec() == 2,
        g.grid() == controlled_not_grid::<R>(),
{
    let z = R::from_u64(0);
    let o = R::from_u64(1);
    proof {
        lemma2_to64();
    }
    fixed_gate(2, real_matrix(4, vec![o, z, z, z, z, o, z, z, z, z, z, o, z, z, o, z]))
}

/// The two-qubit gate that applies the one-qubit matrix `u` where the first
/// qubit is set.
///
/// The matrix is rejected unless its size is 2.
pub fn controlled<R: Real>(u: &Matrix<R>) -> (r: Result<Gate<R>, QuantumError>)
    ensures
        match r {
            Ok(g) => u@.len() == 2 && g.width_spec() == 2 && g.grid() == controlled_grid(u@),
            Err(e) => u@.len() != 2 && e == QuantumError::DimensionMismatch,
        },
{
    if u.size() != 2 {
        return Err(QuantumError::DimensionMismatch);
    }
    let z = R::from_u64(0);
    let o = R::from_u64(1);
    let mut m = real_matrix(4, vec![o, z, z, z, z, o, z, z, z, z, z, z, z, z, z, z]);
    proof {
        lemma2_to64();
    }
    match m.embed(u, 2, 2) {
        Ok(_) => Ok(fixed_gate(2, m)),
        Err(e) => Err(e),
    }
}

/// The controlled-X gate of two qubits.
pub fn controlled_x<R: Real>() -> (g: Gate<R>)
    ensures
        g.width_spec() == 2,
        g.grid() == controlled_grid(pauli_x_grid::<R>()),
{
    proof {
        lemma2_to64();
    }
    match controlled(pauli_x().matrix()) {
        Ok(g) => g,
        Err(_) => unreached(),
    }
}

/// The controlled-Y gate of two qubits.
pub fn controlled_y<R: Real>() -> (g: Gate<R>)
    ensures
        g.width_spec() == 2,
        g.grid() == controlled_grid(pauli_y_grid::<R>()),
{
    proof {
        lemma2_to64();
    }
    match controlled(pauli_y().matrix()) {
        Ok(g) => g,
        Err(_) => unreached(),
    }
}

/// The controlled-Z gate of two qubits.
pub fn controlled_z<R: Real>() -> (g: Gate<R>)
    ensures
        g.width_spec() == 2,
        g.grid() == controlled_grid(pauli_z_grid::<R>()),
{
    proof {
        lemma2_to64();
    }
    match controlled(pauli_z().matrix()) {
        Ok(g) => g,
        Err(_) => unreached(),
    }
}

/// A gate of three qubits that exchanges the states `at` and `at + 1` and
/// leaves every other state as it is.
fn exchange_embedded_gate<R: Real>(at: usize) -> (g: Gate<R>)
    requires
        at + 2 <= 8,
    ensures
        g.width_spec() == 3,
        g.grid() == embedded(identity_grid::<R>(8), pauli_x_grid::<R>(), at as int, at as int),
{
    let z = R::from_u64(0);
    let o = R::from_u64(1);
    let exchange = real_matrix(2, vec![z, o, o, z]);
    proof {
        lemma2_to64();
    }
    match Matrix::identity(8) {
        Ok(mut m) => {
            match m.embed(&exchange, at, at) {
                Ok(_) => fixed_gate(3, m),
                Err(_) => unreached(),
            }
        },
        Err(_) => unreached(),
    }
}

/// The Toffoli gate of three qubits: where the first two qubits are set, it
/// applies a Pauli-X to the third, else it does nothing.
pub fn toffoli<R: Real>() -> (g: Gate<R>)
    ensures
        g.width_spec() == 3,
        g.grid() == toffoli_grid::<R>(),
{
    exchange_embedded_gate(6)
}

/// The Fredkin gate of three qubits, a controlled swap.
pub fn fredkin<R: Real>() -> (g: Gate<R>)
    ensures
        g.width_spec() == 3,
        g.grid() == fredkin_grid::<R>(),
{
    exchange_embedded_gate(5)
}

/// The quantum Fourier transform on `n` qubits, built from the primitive
/// root of unity of order `2^n` that `R` computes.
///
/// `n` is rejected when its `2^n` states exceed `MAX_SIZE`.
pub fn quantum_fourier_transform<R: Real>(n: usize) -> (r: Result<Gate<R>, QuantumError>)
    ensures
        match r {
            Ok(g) => {
                &&& pow2(n as nat) <= MAX_SIZE
                &&& g.width_spec() == n
                &&& exists|root: Complex<R>|
                    Complex::is_root_of_unity(root, pow2(n as nat) as u32) && g.grid()
                        == fourier_grid(pow2(n as nat), root)
            },
            Err(e) => pow2(n as nat) > MAX_SIZE && e == QuantumError::Size,
        },
{
    proof {
        lemma2_to64();
        if n > 5 {
            lemma_pow2_strictly_increases(5, n as nat);
        } else if n < 5 {
            lemma_pow2_strictly_increases(n as nat, 5);
        }
        lemma_pow2_pos(n as nat);
    }
    if n > 5 {
        return Err(QuantumError::Size);
    }
    let d = Ket::<R>::size(n);
    let scale = Complex::new(inverse_root::<R>(d as u64), R::from_u64(0));
    let root = Complex::<R>::nth_root_of_unity(d as u32);
    let mut m = match Matrix::new(d) {
        Ok(m) => m,
        Err(e) => {
            return Err(e);
        },
    };
    let ghost target = fourier_grid(d as nat, root);
    proof {
        m.lemma_square();
    }
    let mut i: usize = 0;
    while i < d
        invariant
            i <= d <= MAX_SIZE,
            d == pow2(n as nat),
            scale == (Complex { re: inverse_root_spec::<R>(d as u64), im: R::from_u64_spec(0) }),
            target == fourier_grid(d as nat, root),
            is_square(m@, d as nat),
            forall|x: int, y: int| 0 <= x < i && 0 <= y < i ==> m@[x][y] == target[x][y],
        decreases d - i,
    {
        let mut j: usize = 0;
        while j <= i
            invariant
                i < d <= MAX_SIZE,
                j <= i + 1,
                d == pow2(n as nat),
                scale == (Complex {
                    re: inverse_root_spec::<R>(d as u64),
                    im: R::from_u64_spec(0),
                }),
                target == fourier_grid(d as nat, root),
                is_square(m@, d as nat),
                forall|x: int, y: int| 0 <= x < i && 0 <= y < i ==> m@[x][y] == target[x][y],
                forall|y: int| 0 <= y < j ==> m@[i as int][y] == target[i as int][y],
                forall|y: int| 0 <= y < j ==> m@[y][i as int] == target[y][i as int],
            decreases i + 1 - j,
        {
            assert(i * j <= 31 * 31) by (nonlinear_arith)
                requires
                    i <= 31,
                    j <= 31,
            ;
            assert(i * j == j * i) by (nonlinear_arith);
            let v = scale * root.pow((i * j) as u32);
            m.set(i, j, v);
            m.set(j, i, v);
            j = j + 1;
        }
        i = i + 1;
    }
    assert(m@ =~~= target);
    let g = fixed_gate(n, m);
    assert(Complex::is_root_of_unity(root, pow2(n as nat) as u32) && g.grid() == fourier_grid(
        pow2(n as nat),
        root,
    ));
    Ok(g)
}

} // verus!
