//! Complex numbers.

use vstd::arithmetic::power2::*;
use vstd::prelude::*;
use vstd::std_specs::ops::{AddSpecImpl, MulSpecImpl, NegSpecImpl};

use crate::scalar::Real;

verus! {

/// The position of the highest bit of `n` that is set: the largest `l` with
/// `2^l <= n`, and 0 for `n == 0`.
pub open spec fn floor_log2(n: nat) -> nat
    decreases n,
{
    if n <= 1 {
        0
    } else {
        1 + floor_log2(n / 2)
    }
}

/// `2^floor_log2(n) <= n < 2^(floor_log2(n) + 1)` for a positive `n`.
pub proof fn lemma_floor_log2(n: nat)
    requires
        n >= 1,
    ensures
        pow2(floor_log2(n)) <= n < 2 * pow2(floor_log2(n)),
    decreases n,
{
    if n <= 1 {
        lemma2_to64();
    } else {
        lemma_floor_log2(n / 2);
        lemma_pow2_unfold(floor_log2(n));
    }
}

/// A complex number with real and imaginary parts of type `R`.
#[derive(Copy, Debug, PartialEq)]
pub struct Complex<R: Real> {
    /// The real part.
    pub re: R,
    /// The imaginary part.
    pub im: R,
}

impl<R: Real> Clone for Complex<R> {
    fn clone(&self) -> (z: Self)
        ensures
            z == *self,
    {
        *self
    }
}

impl<R: Real> Complex<R> {
    /// Zero in the complex plane.
    pub open spec fn zero_spec() -> Self {
        Complex { re: R::from_u64_spec(0), im: R::from_u64_spec(0) }
    }

    /// One in the complex plane.
    pub open spec fn one_spec() -> Self {
        Complex { re: R::from_u64_spec(1), im: R::from_u64_spec(0) }
    }

    /// The imaginary unit.
    pub open spec fn i_spec() -> Self {
        Complex { re: R::from_u64_spec(0), im: R::from_u64_spec(1) }
    }

    /// The number `r * (c + s * i)`: the number of modulus `r` whose angle has
    /// cosine `c` and sine `s`.
    pub open spec fn polar_spec(r: R, c: R, s: R) -> Self {
        Complex { re: r.times_spec(c), im: r.times_spec(s) }
    }

    /// Whether `z` is a number that `new_euler` may return for the modulus `r`
    /// and the angle `phi`: `r * (c + s * i)` for a cosine `c` and a sine `s`
    /// of `phi`.
    pub open spec fn is_polar(z: Self, r: R, phi: R) -> bool {
        exists|c: R, s: R|
            phi.cosine_outcome(c) && phi.sine_outcome(s) && z == Self::polar_spec(r, c, s)
    }

    /// The `n`-th part of the full angle, for a positive `n`.
    pub open spec fn angle_of_root_spec(n: u32) -> R {
        R::from_u64_spec(2).times_spec(R::pi_spec()).over_spec(R::from_u64_spec(n as u64))
    }

    /// Whether `z` is a number that `nth_root_of_unity` may return for `n`:
    /// one for `n == 0`, else a number of modulus one whose angle is the
    /// `n`-th part of the full angle.
    pub open spec fn is_root_of_unity(z: Self, n: u32) -> bool {
        if n == 0 {
            z == Self::one_spec()
        } else {
            Self::is_polar(z, R::from_u64_spec(1), Self::angle_of_root_spec(n))
        }
    }

    /// The sum of two complex numbers, part by part.
    pub open spec fn plus_spec(self, rhs: Self) -> Self {
        Complex { re: self.re.plus_spec(rhs.re), im: self.im.plus_spec(rhs.im) }
    }

    /// The product of two complex numbers.
    pub open spec fn times_spec(self, rhs: Self) -> Self {
        Complex {
            re: self.re.times_spec(rhs.re).minus_spec(self.im.times_spec(rhs.im)),
            im: self.re.times_spec(rhs.im).plus_spec(self.im.times_spec(rhs.re)),
        }
    }

    /// The number with both parts negated.
    pub open spec fn negated_spec(self) -> Self {
        Complex { re: self.re.negated_spec(), im: self.im.negated_spec() }
    }

    /// The square of the absolute value.
    pub open spec fn norm_sqr_spec(self) -> R {
        self.re.times_spec(self.re).plus_spec(self.im.times_spec(self.im))
    }

    /// Whether both parts of the two numbers compare equal.
    pub open spec fn equals_spec(self, rhs: Self) -> bool {
        self.re.equals_spec(rhs.re) && self.im.equals_spec(rhs.im)
    }

    /// The distance below which two parts count as approximately equal: one
    /// in a million millions.
    pub open spec fn tolerance_spec() -> R {
        R::from_u64_spec(1).over_spec(R::from_u64_spec(1_000_000_000_000))
    }

    /// Whether the two numbers differ by less than the tolerance in each part.
    pub open spec fn approx_eq_spec(self, rhs: Self) -> bool {
        &&& self.re.minus_spec(rhs.re).magnitude_spec().less_than_spec(Self::tolerance_spec())
        &&& self.im.minus_spec(rhs.im).magnitude_spec().less_than_spec(Self::tolerance_spec())
    }

    /// The product of `n` factors `self`, multiplied from the left one by
    /// one, starting from one.
    pub open spec fn repeated_product(self, n: nat) -> Self
        decreases n,
    {
        if n == 0 {
            Self::one_spec()
        } else {
            self.repeated_product((n - 1) as nat).times_spec(self)
        }
    }

    /// The number squared `l` times in a row: `self^(2^l)`.
    pub open spec fn repeated_square(self, l: nat) -> Self
        decreases l,
    {
        if l == 0 {
            self
        } else {
            let root = self.repeated_square((l - 1) as nat);
            root.times_spec(root)
        }
    }

    /// The `n`-th power, as `pow` multiplies it out: powers below 5 factor by
    /// factor, larger ones as the power of the remainder times the number
    /// squared `floor_log2(n)` times.
    pub open spec fn pow_spec(self, n: nat) -> Self
        decreases n,
    {
        if n == 0 {
            Self::one_spec()
        } else if n < 5 {
            self.repeated_product(n)
        } else {
            let l = floor_log2(n);
            proof {
                lemma_floor_log2(n);
                lemma_pow2_pos(l);
            }
            self.pow_spec((n - pow2(l)) as nat).times_spec(self.repeated_square(l))
        }
    }

    /// Constructs `re + im * i`.
    pub fn new(re: R, im: R) -> (z: Self)
        ensures
            z == (Complex { re, im }),
    {
        Complex { re, im }
    }

    /// Constructs the number of modulus `r` from the cosine and the sine of
    /// its angle.
    pub fn from_polar_parts(r: R, cos_phi: R, sin_phi: R) -> (z: Self)
        ensures
            z == Self::polar_spec(r, cos_phi, sin_phi),
    {
        Complex { re: r.times(cos_phi), im: r.times(sin_phi) }
    }

    /// Constructs `r * exp(i * phi)`, with the cosine and the sine of `phi`
    /// that `R` computes.
    pub fn new_euler(r: R, phi: R) -> (z: Self)
        ensures
            Self::is_polar(z, r, phi),
    {
        let c = phi.cosine();
        let s = phi.sine();
        Self::from_polar_parts(r, c, s)
    }

    /// Constructs a primitive `n`-th root of unity, and one for `n == 0`.
    pub fn nth_root_of_unity(n: u32) -> (z: Self)
        ensures
            Self::is_root_of_unity(z, n),
    {
        if n == 0 {
            Self::one()
        } else {
            let angle = R::from_u64(2).times(R::pi()).over(R::from_u64(n as u64));
            Self::new_euler(R::from_u64(1), angle)
        }
    }

    /// Zero in the complex plane, `0 + 0i`.
    pub fn zero() -> (z: Self)
        ensures
            z == Self::zero_spec(),
    {
        Complex { re: R::from_u64(0), im: R::from_u64(0) }
    }

    /// One in the complex plane, `1 + 0i`.
    pub fn one() -> (z: Self)
        ensures
            z == Self::one_spec(),
    {
        Complex { re: R::from_u64(1), im: R::from_u64(0) }
    }

    /// The imaginary unit.
    pub fn i() -> (z: Self)
        ensures
            z == Self::i_spec(),
    {
        Complex { re: R::from_u64(0), im: R::from_u64(1) }
    }

    /// The square of the absolute value, `|z|^2`.
    pub fn norm_sqr(&self) -> (r: R)
        ensures
            r == self.norm_sqr_spec(),
    {
        self.re.times(self.re).plus(self.im.times(self.im))
    }

    /// The `n`-th power of this number, by repeated squaring once `n` is 5 or
    /// more.
    pub fn pow(&self, n: u32) -> (z: Self)
        ensures
            z == self.pow_spec(n as nat),
        decreases n,
    {
        if n == 0 {
            Self::one()
        } else if n < 5 {
            let mut x = Self::one();
            let mut k: u32 = 0;
            while k < n
                invariant
                    k <= n,
                    x == self.repeated_product(k as nat),
                decreases n - k,
            {
                x = x * *self;
                k = k + 1;
            }
            x
        } else {
            // l = floor(log_2(n)), power = 2^l
            let mut l: u32 = 0;
            let mut power: u32 = 1;
            let mut rest: u32 = n;
            proof {
                lemma2_to64();
            }
            while rest > 1
                invariant
                    rest >= 1,
                    power == pow2(l as nat),
                    power * rest <= n,
                    floor_log2(n as nat) == l + floor_log2(rest as nat),
                decreases rest,
            {
                proof {
                    lemma_pow2_unfold((l + 1) as nat);
                    assert(2 * power * (rest / 2) <= power * rest) by (nonlinear_arith)
                        requires
                            2 * (rest / 2) <= rest,
                    ;
                    assert(power * 2 <= power * rest) by (nonlinear_arith)
                        requires
                            rest >= 2,
                    ;
                    assert(l < 32) by {
                        lemma2_to64();
                        if l > 32 {
                            lemma_pow2_strictly_increases(32, l as nat);
                        }
                    }
                }
                rest = rest / 2;
                power = power * 2;
                l = l + 1;
            }
            proof {
                lemma_floor_log2(n as nat);
            }
            let mut x = *self;
            let mut k: u32 = 0;
            while k < l
                invariant
                    k <= l,
                    x == self.repeated_square(k as nat),
                decreases l - k,
            {
                x = x * x;
                k = k + 1;
            }
            self.pow(n - power) * x
        }
    }

    /// The real part.
    pub fn re(&self) -> (r: R)
        ensures
            r == self.re,
    {
        self.re
    }

    /// The imaginary part.
    pub fn im(&self) -> (r: R)
        ensures
            r == self.im,
    {
        self.im
    }

    /// Whether both parts of the two numbers compare equal.
    pub fn equals(&self, other: &Complex<R>) -> (b: bool)
        ensures
            b == self.equals_spec(*other),
    {
        self.re.equals(other.re) && self.im.equals(other.im)
    }

    /// Whether the two numbers are approximately equal: whether they differ by
    /// less than the tolerance in each part.
    pub fn approx_eq(&self, other: &Complex<R>) -> (b: bool)
        ensures
            b == self.approx_eq_spec(*other),
    {
        let threshold = R::from_u64(1).over(R::from_u64(1_000_000_000_000));
        let d1 = self.re().minus(other.re()).magnitude();
        let d2 = self.im().minus(other.im()).magnitude();
        d1.less_than(threshold) && d2.less_than(threshold)
    }
}

/// Whether the multiplication of complex numbers over `R` is exact:
/// associative, with one as its unit on either side.
pub open spec fn times_is_exact<R: Real>() -> bool {
    &&& forall|a: Complex<R>, b: Complex<R>, c: Complex<R>| #[trigger]
        a.times_spec(b).times_spec(c) == a.times_spec(b.times_spec(c))
    &&& forall|a: Complex<R>| #[trigger] Complex::<R>::one_spec().times_spec(a) == a
    &&& forall|a: Complex<R>| #[trigger] a.times_spec(Complex::<R>::one_spec()) == a
}

/// The product of `m` factors times the product of `n` factors is the product
/// of `m + n` factors, where the multiplication is exact.
proof fn lemma_repeated_product_adds<R: Real>(z: Complex<R>, m: nat, n: nat)
    requires
        times_is_exact::<R>(),
    ensures
        z.repeated_product(m).times_spec(z.repeated_product(n)) == z.repeated_product(m + n),
    decreases n,
{
    if n > 0 {
        lemma_repeated_product_adds(z, m, (n - 1) as nat);
    }
}

/// Squaring `l` times gives the product of `2^l` factors, where the
/// multiplication is exact.
proof fn lemma_repeated_square<R: Real>(z: Complex<R>, l: nat)
    requires
        times_is_exact::<R>(),
    ensures
        z.repeated_square(l) == z.repeated_product(pow2(l)),
    decreases l,
{
    if l == 0 {
        lemma2_to64();
        assert(z.repeated_product(1) == z.repeated_product(0).times_spec(z));
    } else {
        let half = pow2((l - 1) as nat);
        lemma_repeated_square(z, (l - 1) as nat);
        lemma_repeated_product_adds(z, half, half);
        lemma_pow2_unfold(l);
    }
}

/// Where the multiplication is exact, `pow` computes the product of `n`
/// factors: squaring repeatedly changes the order of the multiplications and
/// not the power.
pub proof fn lemma_pow_is_repeated_product<R: Real>(z: Complex<R>, n: nat)
    requires
        times_is_exact::<R>(),
    ensures
        z.pow_spec(n) == z.repeated_product(n),
    decreases n,
{
    if n >= 5 {
        let l = floor_log2(n);
        lemma_floor_log2(n);
        lemma_pow2_pos(l);
        let rest = (n - pow2(l)) as nat;
        lemma_pow_is_repeated_product(z, rest);
        lemma_repeated_square(z, l);
        lemma_repeated_product_adds(z, rest, pow2(l));
    }
}

impl<R: Real> AddSpecImpl for Complex<R> {
    open spec fn obeys_add_spec() -> bool {
        true
    }

    open spec fn add_req(self, rhs: Complex<R>) -> bool {
        true
    }

    open spec fn add_spec(self, rhs: Complex<R>) -> Complex<R> {
        self.plus_spec(rhs)
    }
}

impl<R: Real> core::ops::Add for Complex<R> {
    type Output = Complex<R>;

    /// The sum of two complex numbers.
    fn add(self, rhs: Complex<R>) -> (z: Complex<R>) {
        Complex { re: self.re.plus(rhs.re), im: self.im.plus(rhs.im) }
    }
}

impl<R: Real> MulSpecImpl for Complex<R> {
    open spec fn obeys_mul_spec() -> bool {
        true
    }

    open spec fn mul_req(self, rhs: Complex<R>) -> bool {
        true
    }

    open spec fn mul_spec(self, rhs: Complex<R>) -> Complex<R> {
        self.times_spec(rhs)
    }
}

impl<R: Real> core::ops::Mul for Complex<R> {
    type Output = Complex<R>;

    /// The product of two complex numbers.
    fn mul(self, rhs: Complex<R>) -> (z: Complex<R>) {
        Complex {
            re: self.re.times(rhs.re).minus(self.im.times(rhs.im)),
            im: self.re.times(rhs.im).plus(self.im.times(rhs.re)),
        }
    }
}

impl<R: Real> NegSpecImpl for Complex<R> {
    open spec fn obeys_neg_spec() -> bool {
        true
    }

    open spec fn neg_req(self) -> bool {
        true
    }

    open spec fn neg_spec(self) -> Complex<R> {
        self.negated_spec()
    }
}

impl<R: Real> core::ops::Neg for Complex<R> {
    type Output = Complex<R>;

    /// The number with both parts negated.
    fn neg(self) -> (z: Complex<R>) {
        Complex { re: self.re.negated(), im: self.im.negated() }
    }
}

impl<R: Real> core::ops::AddAssign for Complex<R> {
    /// Adds `rhs` to this number.
    fn add_assign(&mut self, rhs: Complex<R>)
        ensures
            *final(self) == old(self).plus_spec(rhs),
    {
        *self = *self + rhs;
    }
}

impl<R: Real> core::ops::MulAssign for Complex<R> {
    /// Multiplies this number by `rhs`.
    fn mul_assign(&mut self, rhs: Complex<R>)
        ensures
            *final(self) == old(self).times_spec(rhs),
    {
        *self = *self * rhs;
    }
}

} // verus!
