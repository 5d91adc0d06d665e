//! Square matrices of complex numbers with a fixed capacity.

use vstd::prelude::*;
use vstd::seq_lib::*;
use vstd::set_lib::*;
use vstd::std_specs::cmp::PartialEqSpecImpl;

use crate::complex::Complex;
use crate::error::QuantumError;
use crate::scalar::Real;

verus! {

/// The largest size of a matrix, and therefore of a ket.
pub const MAX_SIZE: usize = 32;

/// The number of slots in the buffer of a matrix.
pub const MAX_ELEMENTS: usize = MAX_SIZE * MAX_SIZE;

/// A buffer of `MAX_SIZE` complex numbers.
pub type Vector<R> = [Complex<R>; MAX_SIZE];

/// The rows of a matrix, each the sequence of its entries: the mathematical
/// value of a matrix.
pub type Grid<R> = Seq<Seq<Complex<R>>>;

/// Whether `grid` has `n` rows of `n` entries each.
pub open spec fn is_square<R: Real>(grid: Grid<R>, n: nat) -> bool {
    &&& grid.len() == n
    &&& forall|i: int| 0 <= i < n ==> (#[trigger] grid[i]).len() == n
}

/// The `n` by `n` grid of zeroes.
pub open spec fn zero_grid<R: Real>(n: nat) -> Grid<R> {
    Seq::new(n, |i: int| Seq::new(n, |j: int| Complex::<R>::zero_spec()))
}

/// The `n` by `n` grid with ones on the diagonal and zeroes elsewhere.
pub open spec fn identity_grid<R: Real>(n: nat) -> Grid<R> {
    Seq::new(
        n,
        |i: int|
            Seq::new(
                n,
                |j: int|
                    if i == j {
                        Complex::<R>::one_spec()
                    } else {
                        Complex::<R>::zero_spec()
                    },
            ),
    )
}

/// The `n` by `n` grid filled row by row from `elements`.
pub open spec fn grid_from_elements<R: Real>(n: nat, elements: Seq<Complex<R>>) -> Grid<R> {
    Seq::new(n, |i: int| Seq::new(n, |j: int| elements[i * n + j]))
}

/// `grid` with the block `block` written over it, the block's top left corner
/// at row `i` and column `j`.
pub open spec fn embedded<R: Real>(
    grid: Grid<R>,
    block: Grid<R>,
    i: int,
    j: int,
) -> Grid<R> {
    Seq::new(
        grid.len(),
        |x: int|
            Seq::new(
                grid.len(),
                |y: int|
                    if i <= x < i + block.len() && j <= y < j + block.len() {
                        block[x - i][y - j]
                    } else {
                        grid[x][y]
                    },
            ),
    )
}

/// Whether every element of `perm` is an index of `perm` and no two positions
/// of `perm` hold the same element.
pub open spec fn is_injection(perm: Seq<usize>) -> bool {
    &&& forall|k: int| 0 <= k < perm.len() ==> (#[trigger] perm[k]) < perm.len()
    &&& forall|a: int, b: int|
        0 <= a < perm.len() && 0 <= b < perm.len() && a != b ==> perm[a] != perm[b]
}

/// Whether `perm` is a permutation of `0..perm.len()`: every index appears in
/// it exactly once.
pub open spec fn is_permutation(perm: Seq<usize>) -> bool {
    &&& is_injection(perm)
    &&& forall|v: usize| v < perm.len() ==> #[trigger] perm.contains(v)
}

/// A sequence of indices without repetition leaves no index out.
pub proof fn lemma_injection_is_permutation(perm: Seq<usize>)
    requires
        is_injection(perm),
    ensures
        is_permutation(perm),
{
    let n = perm.len() as int;
    let values = Seq::new(perm.len(), |k: int| perm[k] as int);
    let range = set_int_range(0, n);
    assert(values.no_duplicates());
    values.unique_seq_to_set();
    lemma_int_range(0, n);
    assert(values.to_set().subset_of(range)) by {
        assert forall|v: int| values.to_set().contains(v) implies range.contains(v) by {
            let k = choose|k: int| 0 <= k < values.len() && values[k] == v;
            assert(perm[k] < perm.len());
        }
    }
    seq_to_set_is_finite(values);
    lemma_subset_equality(values.to_set(), range);
    assert forall|v: usize| v < perm.len() implies #[trigger] perm.contains(v) by {
        assert(range.contains(v as int));
        assert(values.to_set().contains(v as int));
        let k = choose|k: int| 0 <= k < values.len() && values[k] == v as int;
        assert(perm[k] == v);
    }
}

/// The position of `perm` that holds `target`.
pub open spec fn position_of(perm: Seq<usize>, target: int) -> int {
    choose|k: int| 0 <= k < perm.len() && perm[k] == target
}

/// `grid` with its rows moved: row `k` of `grid` is row `perm[k]` of the
/// result.
pub open spec fn rows_permuted<R: Real>(grid: Grid<R>, perm: Seq<usize>) -> Grid<R> {
    Seq::new(grid.len(), |t: int| grid[position_of(perm, t)])
}

/// `grid` with its columns moved: column `k` of `grid` is column `perm[k]` of
/// the result.
pub open spec fn columns_permuted<R: Real>(grid: Grid<R>, perm: Seq<usize>) -> Grid<R> {
    Seq::new(
        grid.len(),
        |i: int| Seq::new(grid.len(), |t: int| grid[i][position_of(perm, t)]),
    )
}

/// In a permutation, the position that holds `perm[k]` is `k`, and the position
/// that holds `t` holds `t`.
pub proof fn lemma_position_of(perm: Seq<usize>)
    requires
        is_permutation(perm),
        perm.len() <= usize::MAX,
    ensures
        forall|k: int| 0 <= k < perm.len() ==> position_of(perm, #[trigger] perm[k] as int) == k,
        forall|t: int|
            0 <= t < perm.len() ==> 0 <= #[trigger] position_of(perm, t) < perm.len() && perm[position_of(
                perm,
                t,
            )] == t,
{
    assert forall|t: int| 0 <= t < perm.len() implies 0 <= #[trigger] position_of(perm, t)
        < perm.len() && perm[position_of(perm, t)] == t by {
        assert(perm.contains(t as usize));
    }
}

/// The permutation of `0..n` that leaves every index where it is.
pub open spec fn identity_permutation(n: nat) -> Seq<usize> {
    Seq::new(n, |k: int| k as usize)
}

/// The permutation of `0..n` that exchanges `a` and `b` and leaves every other
/// index where it is.
pub open spec fn transposition(n: nat, a: int, b: int) -> Seq<usize> {
    Seq::new(
        n,
        |k: int|
            if k == a {
                b as usize
            } else if k == b {
                a as usize
            } else {
                k as usize
            },
    )
}

/// A transposition is a permutation and its own inverse. With `a == b` this
/// is the identity permutation.
pub proof fn lemma_transposition(n: nat, a: int, b: int)
    requires
        0 <= a < n,
        0 <= b < n,
        n <= usize::MAX,
    ensures
        is_permutation(transposition(n, a, b)),
        forall|t: int|
            0 <= t < n ==> #[trigger] position_of(transposition(n, a, b), t) == transposition(
                n,
                a,
                b,
            )[t],
{
    let perm = transposition(n, a, b);
    assert(is_injection(perm));
    lemma_injection_is_permutation(perm);
    lemma_position_of(perm);
    assert forall|t: int| 0 <= t < n implies #[trigger] position_of(perm, t) == perm[t] by {
        let k = perm[t] as int;
        assert(perm[k] == t);
        assert(position_of(perm, perm[k] as int) == k);
    }
}

/// Permuting the rows or the columns by the identity permutation changes
/// nothing.
pub proof fn lemma_permute_identity<R: Real>(grid: Grid<R>)
    requires
        is_square(grid, grid.len()),
        grid.len() <= usize::MAX,
    ensures
        is_permutation(identity_permutation(grid.len())),
        rows_permuted(grid, identity_permutation(grid.len())) == grid,
        columns_permuted(grid, identity_permutation(grid.len())) == grid,
{
    let n = grid.len();
    let perm = identity_permutation(n);
    if n > 0 {
        lemma_transposition(n, 0, 0);
        assert(perm =~= transposition(n, 0, 0));
    } else {
        assert(is_permutation(perm));
    }
    assert(rows_permuted(grid, perm) =~= grid);
    assert(columns_permuted(grid, perm) =~~= grid);
}

/// Permuting the rows by a transposition exchanges the two rows and leaves
/// every other row where it is.
pub proof fn lemma_permute_rows_transposition<R: Real>(grid: Grid<R>, a: int, b: int)
    requires
        is_square(grid, grid.len()),
        grid.len() <= usize::MAX,
        0 <= a < grid.len(),
        0 <= b < grid.len(),
    ensures
        is_permutation(transposition(grid.len(), a, b)),
        rows_permuted(grid, transposition(grid.len(), a, b)) == grid.update(a, grid[b]).update(
            b,
            grid[a],
        ),
{
    let perm = transposition(grid.len(), a, b);
    lemma_transposition(grid.len(), a, b);
    assert(rows_permuted(grid, perm) =~= grid.update(a, grid[b]).update(b, grid[a]));
}

/// Permuting the columns by a transposition exchanges the two columns and
/// leaves every other column where it is.
pub proof fn lemma_permute_columns_transposition<R: Real>(
    grid: Grid<R>,
    a: int,
    b: int,
)
    requires
        is_square(grid, grid.len()),
        grid.len() <= usize::MAX,
        0 <= a < grid.len(),
        0 <= b < grid.len(),
    ensures
        is_permutation(transposition(grid.len(), a, b)),
        columns_permuted(grid, transposition(grid.len(), a, b)) == Seq::new(
            grid.len(),
            |i: int| grid[i].update(a, grid[i][b]).update(b, grid[i][a]),
        ),
{
    let perm = transposition(grid.len(), a, b);
    lemma_transposition(grid.len(), a, b);
    assert(columns_permuted(grid, perm) =~~= Seq::new(
        grid.len(),
        |i: int| grid[i].update(a, grid[i][b]).update(b, grid[i][a]),
    ));
}

/// Embedding a block of one element replaces that element and nothing else.
pub proof fn lemma_embed_single<R: Real>(
    grid: Grid<R>,
    value: Complex<R>,
    i: int,
    j: int,
)
    requires
        is_square(grid, grid.len()),
        0 <= i < grid.len(),
        0 <= j < grid.len(),
    ensures
        embedded(grid, seq![seq![value]], i, j) == grid.update(i, grid[i].update(j, value)),
{
    assert(embedded(grid, seq![seq![value]], i, j) =~~= grid.update(i, grid[i].update(j, value)));
}

/// The entry by entry sum of two grids of the same shape.
pub open spec fn grid_sum<R: Real>(a: Grid<R>, b: Grid<R>) -> Grid<R> {
    Seq::new(a.len(), |i: int| Seq::new(a.len(), |j: int| a[i][j].plus_spec(b[i][j])))
}

/// Column `j` of a grid.
pub open spec fn column<R: Real>(grid: Grid<R>, j: int) -> Seq<Complex<R>> {
    Seq::new(grid.len(), |k: int| grid[k][j])
}

/// The sum of the first `k` products `row[t] * col[t]`, added up from zero in
/// the order of `t`.
pub open spec fn dot<R: Real>(row: Seq<Complex<R>>, col: Seq<Complex<R>>, k: nat) -> Complex<R>
    decreases k,
{
    if k == 0 {
        Complex::zero_spec()
    } else {
        dot(row, col, (k - 1) as nat).plus_spec(row[k - 1].times_spec(col[k - 1]))
    }
}

/// The matrix product of two grids of the same shape.
pub open spec fn grid_product<R: Real>(a: Grid<R>, b: Grid<R>) -> Grid<R> {
    Seq::new(a.len(), |i: int| Seq::new(a.len(), |j: int| dot(a[i], column(b, j), a.len())))
}

/// The product of a grid and a buffer: entry `i` is the dot product of row `i`
/// and the buffer for the rows of the grid, and zero past them.
pub open spec fn grid_times_vector<R: Real>(a: Grid<R>, v: Seq<Complex<R>>) -> Seq<
    Complex<R>,
> {
    Seq::new(
        MAX_SIZE as nat,
        |i: int|
            if i < a.len() {
                dot(a[i], v, a.len())
            } else {
                Complex::zero_spec()
            },
    )
}

/// Whether the arithmetic is exact where the identity matrix of size `n` meets
/// entry `i` of `v`: adding the product of zero and another entry changes
/// neither zero nor the entry, and zero plus the product of one and the entry
/// is the entry.
pub open spec fn identity_is_exact_at<R: Real>(v: Seq<Complex<R>>, n: nat, i: int) -> bool {
    let zero = Complex::<R>::zero_spec();
    let one = Complex::<R>::one_spec();
    &&& forall|k: int| 0 <= k < i ==> zero.plus_spec(zero.times_spec(#[trigger] v[k])) == zero
    &&& zero.plus_spec(one.times_spec(v[i])) == v[i]
    &&& forall|k: int| i < k < n ==> v[i].plus_spec(zero.times_spec(#[trigger] v[k])) == v[i]
}

/// The dot product of row `i` of the identity matrix and `v`, taken over the
/// first `k` entries, is zero before entry `i` is reached and `v[i]` after.
proof fn lemma_identity_row<R: Real>(v: Seq<Complex<R>>, n: nat, i: int, k: nat)
    requires
        0 <= i < n,
        k <= n <= v.len(),
        identity_is_exact_at(v, n, i),
    ensures
        dot(identity_grid::<R>(n)[i], v, k) == if k <= i {
            Complex::<R>::zero_spec()
        } else {
            v[i]
        },
    decreases k,
{
    if k > 0 {
        lemma_identity_row(v, n, i, (k - 1) as nat);
        let t = k - 1;
        assert(identity_grid::<R>(n)[i][t] == if i == t {
            Complex::<R>::one_spec()
        } else {
            Complex::<R>::zero_spec()
        });
    }
}

/// Multiplying by the identity matrix leaves every amplitude as it is,
/// wherever the arithmetic is exact on the amplitudes and the buffer holds
/// zero past the matrix.
pub proof fn lemma_identity_times_vector<R: Real>(v: Seq<Complex<R>>, n: nat)
    requires
        n <= MAX_SIZE,
        v.len() == MAX_SIZE,
        forall|i: int| 0 <= i < n ==> identity_is_exact_at(v, n, i),
        forall|k: int| n <= k < MAX_SIZE ==> v[k] == Complex::<R>::zero_spec(),
    ensures
        grid_times_vector(identity_grid::<R>(n), v) == v,
{
    assert forall|i: int| 0 <= i < MAX_SIZE implies grid_times_vector(identity_grid::<R>(n), v)[i]
        == v[i] by {
        if i < n {
            lemma_identity_row(v, n, i, n);
        }
    }
    assert(grid_times_vector(identity_grid::<R>(n), v) =~= v);
}

/// Whether every entry of `v` from position `n` on compares equal to zero.
pub open spec fn tail_is_zero<R: Real>(v: Seq<Complex<R>>, n: int) -> bool {
    forall|k: int| n <= k < v.len() ==> Complex::<R>::zero_spec().equals_spec(#[trigger] v[k])
}

/// Whether two grids of the same shape are approximately equal entry by entry.
pub open spec fn grid_approx_eq<R: Real>(a: Grid<R>, b: Grid<R>) -> bool {
    forall|i: int, j: int|
        0 <= i < a.len() && 0 <= j < a.len() ==> (#[trigger] a[i][j]).approx_eq_spec(
            #[trigger] b[i][j],
        )
}

/// Whether two buffers compare equal slot by slot.
pub open spec fn slots_equal<R: Real>(a: Seq<Complex<R>>, b: Seq<Complex<R>>) -> bool {
    forall|k: int| 0 <= k < a.len() ==> (#[trigger] a[k]).equals_spec(#[trigger] b[k])
}

/// A square matrix over the complex numbers of size at most `MAX_SIZE`.
///
/// The elements are stored in a buffer of `MAX_SIZE * MAX_SIZE` numbers, the
/// element of row `i` and column `j` at position `i * MAX_SIZE + j`. The slots
/// outside the matrix hold zero.
#[derive(Debug)]
pub struct Matrix<R: Real> {
    size: usize,
    elements: [Complex<R>; MAX_ELEMENTS],
}

impl<R: Real> View for Matrix<R> {
    type V = Grid<R>;

    /// The rows of the matrix, each the sequence of its entries.
    closed spec fn view(&self) -> Grid<R> {
        Seq::new(
            self.size as nat,
            |i: int| Seq::new(self.size as nat, |j: int| self.elements@[i * MAX_SIZE + j]),
        )
    }
}

impl<R: Real> Matrix<R> {
    #[verifier::type_invariant]
    spec fn well_formed(self) -> bool {
        &&& self.size <= MAX_SIZE
        &&& forall|k: int|
            0 <= k < MAX_ELEMENTS && (k / (MAX_SIZE as int) >= self.size || k % (MAX_SIZE as int)
                >= self.size) ==> #[trigger] self.elements@[k] == Complex::<R>::zero_spec()
    }

    /// The whole buffer of the matrix, row by row in rows of `MAX_SIZE` slots:
    /// the entries of the matrix, and zero in the slots outside it.
    pub open spec fn slots(&self) -> Seq<Complex<R>> {
        Seq::new(
            MAX_ELEMENTS as nat,
            |k: int| self.entry(k / (MAX_SIZE as int), k % (MAX_SIZE as int)),
        )
    }

    /// The entry at row `i` and column `j`, which is zero outside the matrix.
    pub open spec fn entry(&self, i: int, j: int) -> Complex<R> {
        if 0 <= i < self@.len() && 0 <= j < self@.len() {
            self@[i][j]
        } else {
            Complex::zero_spec()
        }
    }

    /// A matrix has as many columns as rows.
    pub proof fn lemma_square(&self)
        ensures
            is_square(self@, self@.len()),
    {
    }

    /// Constructs the zero matrix of the given size.
    ///
    /// The size is rejected when it exceeds `MAX_SIZE`.
    pub fn new(size: usize) -> (r: Result<Matrix<R>, QuantumError>)
        ensures
            match r {
                Ok(m) => size <= MAX_SIZE && m@ == zero_grid::<R>(size as nat),
                Err(e) => size > MAX_SIZE && e == QuantumError::Size,
            },
    {
        if size > MAX_SIZE {
            return Err(QuantumError::Size);
        }
        Ok(Self::zero(size))
    }

    /// The zero matrix of a size that is known to fit.
    fn zero(size: usize) -> (m: Matrix<R>)
        requires
            size <= MAX_SIZE,
        ensures
            m@ == zero_grid::<R>(size as nat),
    {
        let m = Matrix { size, elements: [Complex::zero();MAX_ELEMENTS] };
        assert(m@ =~~= zero_grid::<R>(size as nat));
        m
    }

    /// Constructs a matrix of the given size from its elements, row by row.
    ///
    /// The arguments are rejected when the size exceeds `MAX_SIZE` or when
    /// there are not `size * size` elements.
    pub fn new_from_elements(size: usize, elements: Vec<Complex<R>>) -> (r: Result<
        Matrix<R>,
        QuantumError,
    >)
        ensures
            match r {
                Ok(m) => size <= MAX_SIZE && elements@.len() == size * size && m@
                    == grid_from_elements(size as nat, elements@),
                Err(e) => (size > MAX_SIZE || elements@.len() != size * size) && e
                    == QuantumError::Size,
            },
    {
        if size > MAX_SIZE {
            return Err(QuantumError::Size);
        }
        assert(size * size <= MAX_ELEMENTS) by (nonlinear_arith)
            requires
                size <= MAX_SIZE,
        ;
        if elements.len() != size * size {
            return Err(QuantumError::Size);
        }
        let mut m = Self::zero(size);
        let ghost target = grid_from_elements(size as nat, elements@);
        let mut i: usize = 0;
        while i < size
            invariant
                i <= size <= MAX_SIZE,
                elements@.len() == size * size,
                target == grid_from_elements(size as nat, elements@),
                is_square(m@, size as nat),
                forall|x: int, y: int| 0 <= x < i && 0 <= y < size ==> m@[x][y] == target[x][y],
            decreases size - i,
        {
            let mut j: usize = 0;
            while j < size
                invariant
                    i < size <= MAX_SIZE,
                    j <= size,
                    elements@.len() == size * size,
                    target == grid_from_elements(size as nat, elements@),
                    is_square(m@, size as nat),
                    forall|x: int, y: int|
                        0 <= x < i && 0 <= y < size ==> m@[x][y] == target[x][y],
                    forall|y: int| 0 <= y < j ==> m@[i as int][y] == target[i as int][y],
                decreases size - j,
            {
                assert(i * size + j < size * size <= MAX_ELEMENTS) by (nonlinear_arith)
                    requires
                        i < size,
                        j < size,
                        size <= MAX_SIZE,
                ;
                m.set(i, j, elements[i * size + j]);
                j = j + 1;
            }
            i = i + 1;
        }
        assert(m@ =~~= target);
        Ok(m)
    }

    /// Constructs the identity matrix of the given size.
    ///
    /// The size is rejected when it exceeds `MAX_SIZE`.
    pub fn identity(size: usize) -> (r: Result<Matrix<R>, QuantumError>)
        ensures
            match r {
                Ok(m) => size <= MAX_SIZE && m@ == identity_grid::<R>(size as nat),
                Err(e) => size > MAX_SIZE && e == QuantumError::Size,
            },
    {
        if size > MAX_SIZE {
            return Err(QuantumError::Size);
        }
        let mut m = Self::zero(size);
        assert(m@ =~~= zero_grid::<R>(size as nat));
        let mut i: usize = 0;
        while i < size
            invariant
                i <= size <= MAX_SIZE,
                is_square(m@, size as nat),
                forall|x: int, y: int|
                    0 <= x < size && 0 <= y < size ==> m@[x][y] == if x == y && x < i {
                        Complex::<R>::one_spec()
                    } else {
                        Complex::<R>::zero_spec()
                    },
            decreases size - i,
        {
            m.set(i, i, Complex::one());
            i = i + 1;
        }
        assert(m@ =~~= identity_grid::<R>(size as nat));
        Ok(m)
    }

    /// Writes `other` over the block of this matrix whose top left corner is
    /// at `(i, j)`.
    ///
    /// The block is rejected, and the matrix left as it is, when it does not
    /// lie within the matrix.
    pub fn embed(&mut self, other: &Matrix<R>, i: usize, j: usize) -> (r: Result<(), QuantumError>)
        ensures
            match r {
                Ok(_) => i + other@.len() <= old(self)@.len() && j + other@.len() <= old(
                    self,
                )@.len() && final(self)@ == embedded(old(self)@, other@, i as int, j as int),
                Err(e) => (i + other@.len() > old(self)@.len() || j + other@.len() > old(
                    self,
                )@.len()) && e == QuantumError::Size && *final(self) == *old(self),
            },
    {
        let n = self.size();
        let b = other.size();
        if b > n || i > n - b || j > n - b {
            return Err(QuantumError::Size);
        }
        proof {
            other.lemma_square();
        }
        let mut x: usize = 0;
        while x < b
            invariant
                x <= b,
                b == other@.len(),
                n == self@.len(),
                n == old(self)@.len(),
                i + b <= n <= MAX_SIZE,
                j + b <= n,
                is_square(self@, n as nat),
                is_square(other@, b as nat),
                forall|p: int, q: int|
                    0 <= p < n && 0 <= q < n ==> self@[p][q] == if i <= p < i + x && j <= q < j
                        + b {
                        other@[p - i][q - j]
                    } else {
                        old(self)@[p][q]
                    },
            decreases b - x,
        {
            let mut y: usize = 0;
            while y < b
                invariant
                    x < b,
                    y <= b,
                    b == other@.len(),
                    n == self@.len(),
                    n == old(self)@.len(),
                    i + b <= n <= MAX_SIZE,
                    j + b <= n,
                    is_square(self@, n as nat),
                    is_square(other@, b as nat),
                    forall|p: int, q: int|
                        0 <= p < n && 0 <= q < n ==> self@[p][q] == if (i <= p < i + x && j <= q
                            < j + b) || (p == i + x && j <= q < j + y) {
                            other@[p - i][q - j]
                        } else {
                            old(self)@[p][q]
                        },
                decreases b - y,
            {
                let value = other.get(x, y);
                self.set(i + x, j + y, value);
                y = y + 1;
            }
            x = x + 1;
        }
        assert(self@ =~~= embedded(old(self)@, other@, i as int, j as int));
        Ok(())
    }

    /// Whether `permutation` is a permutation of `0..permutation.len()`.
    pub fn permutation_valid(permutation: &Vec<usize>) -> (b: bool)
        ensures
            b == is_permutation(permutation@),
    {
        let n = permutation.len();
        let mut seen: Vec<bool> = Vec::new();
        while seen.len() < n
            invariant
                seen.len() <= n,
                forall|v: int| 0 <= v < seen.len() ==> !seen[v],
            decreases n - seen.len(),
        {
            seen.push(false);
        }
        let mut k: usize = 0;
        while k < n
            invariant
                k <= n,
                n == permutation.len(),
                seen.len() == n,
                forall|a: int| 0 <= a < k ==> permutation[a] < n,
                forall|a: int, b: int| 0 <= a < k && 0 <= b < k && a != b ==> permutation[a] != permutation[b],
                forall|v: int|
                    0 <= v < n ==> (seen[v] <==> exists|a: int| 0 <= a < k && permutation[a] == v),
            decreases n - k,
        {
            let target = permutation[k];
            if target >= n {
                return false;
            }
            if seen[target] {
                let ghost a = choose|a: int| 0 <= a < k && permutation[a] == target;
                assert(permutation@[a] == permutation@[k as int]);
                return false;
            }
            seen.set(target, true);
            assert forall|v: int| 0 <= v < n implies (seen[v] <==> exists|a: int|
                0 <= a < k + 1 && permutation[a] == v) by {
                if v == target {
                    assert(permutation[k as int] == v);
                } else if seen[v] {
                    let a = choose|a: int| 0 <= a < k && permutation[a] == v;
                    assert(0 <= a < k + 1 && permutation[a] == v);
                }
            }
            k = k + 1;
        }
        proof {
            lemma_injection_is_permutation(permutation@);
        }
        true
    }

    /// Moves the rows: row `k` of this matrix is row `permutation[k]` of the
    /// result.
    ///
    /// The argument is rejected unless it is a permutation of the row indices.
    pub fn permute_rows(&self, permutation: Vec<usize>) -> (r: Result<Matrix<R>, QuantumError>)
        ensures
            match r {
                Ok(m) => permutation@.len() == self@.len() && is_permutation(permutation@) && m@
                    == rows_permuted(self@, permutation@) && forall|k: int|
                    0 <= k < self@.len() ==> m@[permutation@[k] as int] == self@[k],
                Err(e) => !(permutation@.len() == self@.len() && is_permutation(permutation@))
                    && e == QuantumError::InvalidPermutation,
            },
    {
        let n = self.size();
        if permutation.len() != n || !Self::permutation_valid(&permutation) {
            return Err(QuantumError::InvalidPermutation);
        }
        let mut m = Self::zero(n);
        proof {
            self.lemma_square();
        }
        let mut source: usize = 0;
        while source < n
            invariant
                source <= n <= MAX_SIZE,
                n == self@.len(),
                n == permutation@.len(),
                is_permutation(permutation@),
                is_square(self@, n as nat),
                is_square(m@, n as nat),
                forall|k: int| 0 <= k < source ==> m@[permutation@[k] as int] == self@[k],
            decreases n - source,
        {
            let target = permutation[source];
            let mut j: usize = 0;
            while j < n
                invariant
                    source < n <= MAX_SIZE,
                    j <= n,
                    n == self@.len(),
                    n == permutation@.len(),
                    target == permutation@[source as int],
                    is_permutation(permutation@),
                    is_square(self@, n as nat),
                    is_square(m@, n as nat),
                    forall|k: int| 0 <= k < source ==> m@[permutation@[k] as int] == self@[k],
                    forall|q: int| 0 <= q < j ==> m@[target as int][q] == self@[source as int][q],
                decreases n - j,
            {
                m.set(target, j, self.get(source, j));
                j = j + 1;
            }
            assert(m@[target as int] =~= self@[source as int]);
            source = source + 1;
        }
        proof {
            lemma_position_of(permutation@);
            assert(m@ =~= rows_permuted(self@, permutation@));
        }
        Ok(m)
    }

    /// Moves the columns: column `k` of this matrix is column `permutation[k]`
    /// of the result.
    ///
    /// The argument is rejected unless it is a permutation of the column
    /// indices.
    pub fn permute_columns(&self, permutation: Vec<usize>) -> (r: Result<Matrix<R>, QuantumError>)
        ensures
            match r {
                Ok(m) => permutation@.len() == self@.len() && is_permutation(permutation@) && m@
                    == columns_permuted(self@, permutation@) && forall|i: int, k: int|
                    0 <= i < self@.len() && 0 <= k < self@.len() ==> m@[i][permutation@[k] as int]
                        == self@[i][k],
                Err(e) => !(permutation@.len() == self@.len() && is_permutation(permutation@))
                    && e == QuantumError::InvalidPermutation,
            },
    {
        let n = self.size();
        if permutation.len() != n || !Self::permutation_valid(&permutation) {
            return Err(QuantumError::InvalidPermutation);
        }
        let mut m = Self::zero(n);
        proof {
            self.lemma_square();
        }
        let mut source: usize = 0;
        while source < n
            invariant
                source <= n <= MAX_SIZE,
                n == self@.len(),
                n == permutation@.len(),
                is_permutation(permutation@),
                is_square(self@, n as nat),
                is_square(m@, n as nat),
                forall|i: int, k: int|
                    0 <= i < n && 0 <= k < source ==> m@[i][permutation@[k] as int] == self@[i][k],
            decreases n - source,
        {
            let target = permutation[source];
            let mut i: usize = 0;
            while i < n
                invariant
                    source < n <= MAX_SIZE,
                    i <= n,
                    n == self@.len(),
                    n == permutation@.len(),
                    target == permutation@[source as int],
                    is_permutation(permutation@),
                    is_square(self@, n as nat),
                    is_square(m@, n as nat),
                    forall|p: int, k: int|
                        0 <= p < n && 0 <= k < source ==> m@[p][permutation@[k] as int]
                            == self@[p][k],
                    forall|p: int| 0 <= p < i ==> m@[p][target as int] == self@[p][source as int],
                decreases n - i,
            {
                m.set(i, target, self.get(i, source));
                i = i + 1;
            }
            source = source + 1;
        }
        proof {
            lemma_position_of(permutation@);
            assert(m@ =~~= columns_permuted(self@, permutation@));
        }
        Ok(m)
    }

    /// Whether the two matrices have the same size and are approximately
    /// equal element by element.
    pub fn approx_eq(&self, other: &Matrix<R>) -> (b: bool)
        ensures
            b == (self@.len() == other@.len() && grid_approx_eq(self@, other@)),
    {
        let n = self.size();
        if n != other.size() {
            return false;
        }
        let mut i: usize = 0;
        while i < n
            invariant
                i <= n <= MAX_SIZE,
                n == self@.len(),
                n == other@.len(),
                forall|x: int, y: int|
                    0 <= x < i && 0 <= y < n ==> (#[trigger] self@[x][y]).approx_eq_spec(
                        #[trigger] other@[x][y],
                    ),
            decreases n - i,
        {
            let mut j: usize = 0;
            while j < n
                invariant
                    i < n <= MAX_SIZE,
                    j <= n,
                    n == self@.len(),
                    n == other@.len(),
                    forall|x: int, y: int|
                        0 <= x < i && 0 <= y < n ==> (#[trigger] self@[x][y]).approx_eq_spec(
                            #[trigger] other@[x][y],
                        ),
                    forall|y: int|
                        0 <= y < j ==> (#[trigger] self@[i as int][y]).approx_eq_spec(
                            other@[i as int][y],
                        ),
                decreases n - j,
            {
                if !self.get(i, j).approx_eq(&other.get(i, j)) {
                    assert(!self@[i as int][j as int].approx_eq_spec(other@[i as int][j as int]));
                    return false;
                }
                j = j + 1;
            }
            i = i + 1;
        }
        true
    }

    /// Whether the two matrices are equal: whether their buffers compare equal
    /// slot by slot.
    ///
    /// Matrices of different sizes are rejected.
    pub fn equals(&self, other: &Matrix<R>) -> (r: Result<bool, QuantumError>)
        ensures
            match r {
                Ok(b) => self@.len() == other@.len() && b == slots_equal(
                    self.slots(),
                    other.slots(),
                ),
                Err(e) => self@.len() != other@.len() && e == QuantumError::SizeMismatch,
            },
    {
        if self.size() != other.size() {
            return Err(QuantumError::SizeMismatch);
        }
        proof {
            use_type_invariant(self);
            use_type_invariant(other);
        }
        let mut k: usize = 0;
        while k < MAX_ELEMENTS
            invariant
                k <= MAX_ELEMENTS,
                self@.len() == other@.len(),
                self.elements@ == self.slots(),
                other.elements@ == other.slots(),
                forall|t: int|
                    0 <= t < k ==> (#[trigger] self.slots()[t]).equals_spec(
                        #[trigger] other.slots()[t],
                    ),
            decreases MAX_ELEMENTS - k,
        {
            if !self.elements[k].equals(&other.elements[k]) {
                assert(!self.slots()[k as int].equals_spec(other.slots()[k as int]));
                return Ok(false);
            }
            k = k + 1;
        }
        Ok(true)
    }

    /// The sum of two matrices.
    ///
    /// Matrices of different sizes are rejected.
    pub fn add(&self, rhs: &Matrix<R>) -> (r: Result<Matrix<R>, QuantumError>)
        ensures
            match r {
                Ok(m) => self@.len() == rhs@.len() && m@ == grid_sum(self@, rhs@),
                Err(e) => self@.len() != rhs@.len() && e == QuantumError::SizeMismatch,
            },
    {
        let n = self.size();
        if n != rhs.size() {
            return Err(QuantumError::SizeMismatch);
        }
        let mut m = Self::zero(n);
        let ghost target = grid_sum(self@, rhs@);
        let mut i: usize = 0;
        while i < n
            invariant
                i <= n <= MAX_SIZE,
                n == self@.len(),
                n == rhs@.len(),
                target == grid_sum(self@, rhs@),
                is_square(m@, n as nat),
                forall|x: int, y: int| 0 <= x < i && 0 <= y < n ==> m@[x][y] == target[x][y],
            decreases n - i,
        {
            let mut j: usize = 0;
            while j < n
                invariant
                    i < n <= MAX_SIZE,
                    j <= n,
                    n == self@.len(),
                    n == rhs@.len(),
                    target == grid_sum(self@, rhs@),
                    is_square(m@, n as nat),
                    forall|x: int, y: int|
                        0 <= x < i && 0 <= y < n ==> m@[x][y] == target[x][y],
                    forall|y: int| 0 <= y < j ==> m@[i as int][y] == target[i as int][y],
                decreases n - j,
            {
                m.set(i, j, self.get(i, j) + rhs.get(i, j));
                j = j + 1;
            }
            i = i + 1;
        }
        assert(m@ =~~= target);
        Ok(m)
    }

    /// The matrix product `self * rhs`.
    ///
    /// Matrices of different sizes are rejected.
    pub fn multiply(&self, rhs: &Matrix<R>) -> (r: Result<Matrix<R>, QuantumError>)
        ensures
            match r {
                Ok(m) => self@.len() == rhs@.len() && m@ == grid_product(self@, rhs@),
                Err(e) => self@.len() != rhs@.len() && e == QuantumError::SizeMismatch,
            },
    {
        let n = self.size();
        if n != rhs.size() {
            return Err(QuantumError::SizeMismatch);
        }
        let mut m = Self::zero(n);
        let ghost target = grid_product(self@, rhs@);
        proof {
            self.lemma_square();
            rhs.lemma_square();
        }
        let mut i: usize = 0;
        while i < n
            invariant
                i <= n <= MAX_SIZE,
                n == self@.len(),
                n == rhs@.len(),
                target == grid_product(self@, rhs@),
                is_square(self@, n as nat),
                is_square(rhs@, n as nat),
                is_square(m@, n as nat),
                forall|x: int, y: int| 0 <= x < i && 0 <= y < n ==> m@[x][y] == target[x][y],
            decreases n - i,
        {
            let mut j: usize = 0;
            while j < n
                invariant
                    i < n <= MAX_SIZE,
                    j <= n,
                    n == self@.len(),
                    n == rhs@.len(),
                    target == grid_product(self@, rhs@),
                    is_square(self@, n as nat),
                    is_square(rhs@, n as nat),
                    is_square(m@, n as nat),
                    forall|x: int, y: int|
                        0 <= x < i && 0 <= y < n ==> m@[x][y] == target[x][y],
                    forall|y: int| 0 <= y < j ==> m@[i as int][y] == target[i as int][y],
                decreases n - j,
            {
                let mut val = Complex::zero();
                let mut k: usize = 0;
                while k < n
                    invariant
                        i < n <= MAX_SIZE,
                        j < n,
                        k <= n,
                        n == self@.len(),
                        n == rhs@.len(),
                        is_square(self@, n as nat),
                        is_square(rhs@, n as nat),
                        val == dot(self@[i as int], column(rhs@, j as int), k as nat),
                    decreases n - k,
                {
                    val = val + self.get(i, k) * rhs.get(k, j);
                    k = k + 1;
                }
                m.set(i, j, val);
                j = j + 1;
            }
            i = i + 1;
        }
        assert(m@ =~~= target);
        Ok(m)
    }

    /// The product of this matrix and a buffer of amplitudes.
    ///
    /// The buffer is rejected when one of its entries past the size of the
    /// matrix does not compare equal to zero.
    pub fn multiply_vector(&self, rhs: &Vector<R>) -> (r: Result<Vector<R>, QuantumError>)
        ensures
            match r {
                Ok(v) => tail_is_zero(rhs@, self@.len() as int) && v@ == grid_times_vector(
                    self@,
                    rhs@,
                ),
                Err(e) => !tail_is_zero(rhs@, self@.len() as int) && e
                    == QuantumError::InvariantViolation,
            },
    {
        let n = self.size();
        let mut output = [Complex::zero();MAX_SIZE];
        let mut t: usize = n;
        while t < MAX_SIZE
            invariant
                n <= t <= MAX_SIZE,
                n == self@.len(),
                rhs@.len() == MAX_SIZE,
                forall|k: int| n <= k < t ==> Complex::<R>::zero_spec().equals_spec(#[trigger] rhs@[k]),
            decreases MAX_SIZE - t,
        {
            if !Complex::zero().equals(&rhs[t]) {
                assert(!Complex::<R>::zero_spec().equals_spec(rhs@[t as int]));
                return Err(QuantumError::InvariantViolation);
            }
            t = t + 1;
        }
        proof {
            self.lemma_square();
        }
        let mut i: usize = 0;
        while i < n
            invariant
                i <= n <= MAX_SIZE,
                n == self@.len(),
                is_square(self@, n as nat),
                forall|x: int| 0 <= x < i ==> output@[x] == dot(self@[x], rhs@, n as nat),
                forall|x: int| i <= x < MAX_SIZE ==> output@[x] == Complex::<R>::zero_spec(),
            decreases n - i,
        {
            let mut val = Complex::zero();
            let mut k: usize = 0;
            while k < n
                invariant
                    i < n <= MAX_SIZE,
                    k <= n,
                    n == self@.len(),
                    is_square(self@, n as nat),
                    val == dot(self@[i as int], rhs@, k as nat),
                decreases n - k,
            {
                val = val + self.get(i, k) * rhs[k];
                k = k + 1;
            }
            output[i] = val;
            i = i + 1;
        }
        assert(output@ =~= grid_times_vector(self@, rhs@));
        Ok(output)
    }

    /// The size of the matrix.
    pub fn size(&self) -> (n: usize)
        ensures
            n == self@.len(),
            n <= MAX_SIZE,
    {
        proof {
            use_type_invariant(self);
        }
        self.size
    }

    /// The element in position `(i, j)`.
    pub fn get(&self, i: usize, j: usize) -> (z: Complex<R>)
        requires
            i < MAX_SIZE,
            j < MAX_SIZE,
        ensures
            z == self.entry(i as int, j as int),
    {
        proof {
            use_type_invariant(self);
        }
        self.elements[i * MAX_SIZE + j]
    }

    /// Sets the element in position `(i, j)` to `value`.
    pub fn set(&mut self, i: usize, j: usize, value: Complex<R>)
        requires
            i < old(self)@.len(),
            j < old(self)@.len(),
        ensures
            final(self)@ == old(self)@.update(i as int, old(self)@[i as int].update(j as int, value)),
    {
        proof {
            use_type_invariant(&*self);
        }
        self.elements[i * MAX_SIZE + j] = value;
        assert(self@ =~~= old(self)@.update(
            i as int,
            old(self)@[i as int].update(j as int, value),
        ));
    }
}

impl<R: Real> PartialEqSpecImpl for Matrix<R> {
    open spec fn obeys_eq_spec() -> bool {
        true
    }

    open spec fn eq_spec(&self, other: &Matrix<R>) -> bool {
        self@.len() == other@.len() && slots_equal(self.slots(), other.slots())
    }
}

impl<R: Real> PartialEq for Matrix<R> {
    /// Whether the two matrices have the same size and their buffers compare
    /// equal slot by slot.
    fn eq(&self, other: &Matrix<R>) -> (b: bool) {
        match self.equals(other) {
            Ok(b) => b,
            Err(_) => false,
        }
    }
}

} // verus!
