//! The real numbers that amplitudes are made of.

use vstd::prelude::*;

verus! {

/// A real number type with the arithmetic the simulator needs.
///
/// The simulator never looks inside a number: it combines numbers through the
/// operations of this trait only, so it runs on any number type that offers
/// them, and in practice on binary floating-point numbers.
///
/// # What is assumed of an implementation
///
/// Each operation but the two trigonometric ones comes with a model, a
/// specification function of the same arguments, and its contract says that
/// it returns what the model returns. A model has no definition here. So the
/// contract claims one thing: that the operation is a function, which gives
/// the same result whenever it is given the same arguments. It says nothing
/// of how close a sum comes to the true sum.
///
/// The cosine and the sine are not held to that, since the precision of
/// either may vary from call to call. Each comes with a relation between an
/// argument and a result, also without a definition here, and promises a
/// result that the relation admits, which claims nothing of the result.
///
/// These contracts are assumed, not proved: no implementation is verified
/// against them. Everything this crate proves about numbers is proved for the
/// implementations that meet them. Rounded floating-point arithmetic does,
/// as long as the implementation returns one and the same value wherever a
/// result is not a number.
pub trait Real: Copy + Sized {
    /// The model of `from_u64`.
    spec fn from_u64_spec(n: u64) -> Self;

    /// The model of `pi`.
    spec fn pi_spec() -> Self;

    /// The model of `plus`.
    spec fn plus_spec(self, rhs: Self) -> Self;

    /// The model of `minus`.
    spec fn minus_spec(self, rhs: Self) -> Self;

    /// The model of `times`.
    spec fn times_spec(self, rhs: Self) -> Self;

    /// The model of `over`.
    spec fn over_spec(self, rhs: Self) -> Self;

    /// The model of `negated`.
    spec fn negated_spec(self) -> Self;

    /// The model of `magnitude`.
    spec fn magnitude_spec(self) -> Self;

    /// The model of `square_root`.
    spec fn square_root_spec(self) -> Self;

    /// Whether `r` is a number that `cosine` may return for this number.
    spec fn cosine_outcome(self, r: Self) -> bool;

    /// Whether `r` is a number that `sine` may return for this number.
    spec fn sine_outcome(self, r: Self) -> bool;

    /// The model of `less_than`.
    spec fn less_than_spec(self, rhs: Self) -> bool;

    /// The model of `equals`.
    spec fn equals_spec(self, rhs: Self) -> bool;

    /// The model of `close_in_ulps`.
    spec fn close_in_ulps_spec(self, rhs: Self, ulps: i64) -> bool;

    /// The number nearest to the integer `n`.
    fn from_u64(n: u64) -> (r: Self)
        ensures
            r == Self::from_u64_spec(n),
    ;

    /// The number nearest to the circle constant.
    fn pi() -> (r: Self)
        ensures
            r == Self::pi_spec(),
    ;

    /// The sum `self + rhs`.
    fn plus(self, rhs: Self) -> (r: Self)
        ensures
            r == self.plus_spec(rhs),
    ;

    /// The difference `self - rhs`.
    fn minus(self, rhs: Self) -> (r: Self)
        ensures
            r == self.minus_spec(rhs),
    ;

    /// The product `self * rhs`.
    fn times(self, rhs: Self) -> (r: Self)
        ensures
            r == self.times_spec(rhs),
    ;

    /// The quotient `self / rhs`.
    fn over(self, rhs: Self) -> (r: Self)
        ensures
            r == self.over_spec(rhs),
    ;

    /// The number `-self`.
    fn negated(self) -> (r: Self)
        ensures
            r == self.negated_spec(),
    ;

    /// The absolute value of the number.
    fn magnitude(self) -> (r: Self)
        ensures
            r == self.magnitude_spec(),
    ;

    /// The square root of the number.
    fn square_root(self) -> (r: Self)
        ensures
            r == self.square_root_spec(),
    ;

    /// The cosine of the number, which need not come out the same each time:
    /// one of the numbers that `cosine_outcome` admits.
    fn cosine(self) -> (r: Self)
        ensures
            self.cosine_outcome(r),
    ;

    /// The sine of the number, which need not come out the same each time: one
    /// of the numbers that `sine_outcome` admits.
    fn sine(self) -> (r: Self)
        ensures
            self.sine_outcome(r),
    ;

    /// Whether `self < rhs`.
    fn less_than(self, rhs: Self) -> (r: bool)
        ensures
            r == self.less_than_spec(rhs),
    ;

    /// Whether the two numbers compare equal. Two numbers that compare equal
    /// need not be the same value, and a value need not compare equal to
    /// itself.
    fn equals(self, rhs: Self) -> (r: bool)
        ensures
            r == self.equals_spec(rhs),
    ;

    /// Whether the two numbers are at most `ulps` representable numbers apart.
    fn close_in_ulps(self, rhs: Self, ulps: i64) -> (r: bool)
        requires
            ulps >= 0,
        ensures
            r == self.close_in_ulps_spec(rhs, ulps),
    ;
}

} // verus!
