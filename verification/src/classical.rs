//! Classical bit registers and their numbering by state.

use vstd::arithmetic::div_mod::*;
use vstd::arithmetic::power2::*;
use vstd::prelude::*;

use crate::error::QuantumError;

verus! {

/// Whether every element of `bits` is 0 or 1.
pub open spec fn is_bit_string(bits: Seq<u8>) -> bool {
    forall|i: int| 0 <= i < bits.len() ==> bits[i] == 0 || bits[i] == 1
}

/// The state that a bit string encodes: the sum of `2^pos` over the positions
/// `pos` that hold a one, counted from the left. The leftmost bit is the least
/// significant.
pub open spec fn state_of(bits: Seq<u8>) -> nat
    decreases bits.len(),
{
    if bits.len() == 0 {
        0
    } else {
        let high: nat = if bits.last() != 0 {
            pow2((bits.len() - 1) as nat)
        } else {
            0
        };
        state_of(bits.drop_last()) + high
    }
}

/// The bit at position `pos` of the encoding of `state`.
pub open spec fn bit_of(state: nat, pos: nat) -> u8 {
    if (state / pow2(pos)) % 2 == 1 {
        1
    } else {
        0
    }
}

/// The bit string of the given width that encodes `state`.
pub open spec fn bits_of(width: nat, state: nat) -> Seq<u8> {
    Seq::new(width, |pos: int| bit_of(state, pos as nat))
}

/// A bit string encodes a state below `2^width`.
pub proof fn lemma_state_bound(bits: Seq<u8>)
    ensures
        state_of(bits) < pow2(bits.len()),
    decreases bits.len(),
{
    if bits.len() == 0 {
        lemma2_to64();
    } else {
        lemma_state_bound(bits.drop_last());
        lemma_pow2_unfold(bits.len());
    }
}

/// Encoding a state in `width` bits and decoding it again gives the state
/// back, provided the state fits into the width.
pub proof fn lemma_state_round_trip(width: nat, state: nat)
    requires
        state < pow2(width),
    ensures
        is_bit_string(bits_of(width, state)),
        bits_of(width, state).len() == width,
        state_of(bits_of(width, state)) == state,
{
    lemma_state_of_bits_of(width, state);
    lemma_small_mod(state, pow2(width));
}

/// Decoding a bit string and encoding the state in the same width gives the
/// bit string back.
pub proof fn lemma_bits_round_trip(bits: Seq<u8>)
    requires
        is_bit_string(bits),
    ensures
        bits_of(bits.len(), state_of(bits)) == bits,
    decreases bits.len(),
{
    let width = bits.len();
    let state = state_of(bits);
    if width == 0 {
        assert(bits_of(width, state) =~= bits);
    } else {
        let front = bits.drop_last();
        let low = state_of(front);
        let top = (width - 1) as nat;
        lemma_bits_round_trip(front);
        lemma_state_bound(front);
        lemma_pow2_pos(top);
        assert forall|pos: int| 0 <= pos < width implies bits_of(width, state)[pos]
            == bits[pos] by {
            if pos < top {
                assert(bits_of(top, low)[pos] == front[pos]);
                if bits.last() != 0 {
                    lemma_bit_below_added_power(low, top, pos as nat);
                }
            } else {
                if bits.last() != 0 {
                    assert(state == 1 * pow2(top) + low);
                    lemma_fundamental_div_mod_converse(state as int, pow2(top) as int, 1, low as int);
                } else {
                    lemma_basic_div(state as int, pow2(top) as int);
                }
            }
        }
        assert(bits_of(width, state) =~= bits);
    }
}

/// Adding `2^top` to a state changes no bit below position `top`.
proof fn lemma_bit_below_added_power(state: nat, top: nat, pos: nat)
    requires
        pos < top,
    ensures
        bit_of(state + pow2(top), pos) == bit_of(state, pos),
{
    let gap = (top - pos) as nat;
    let rest = (gap - 1) as nat;
    lemma_pow2_adds(pos, gap);
    lemma_pow2_unfold(gap);
    lemma_pow2_pos(pos);
    lemma_pow2_pos(rest);
    // state + 2^top = state + (2 * 2^rest) * 2^pos
    assert(pow2(top) == pow2(pos) * (2 * pow2(rest))) by (nonlinear_arith)
        requires
            pow2(top) == pow2(pos) * pow2(gap),
            pow2(gap) == 2 * pow2(rest),
    ;
    let shifted = 2 * pow2(rest);
    lemma_div_plus_multiple(state, pow2(pos), shifted);
    let q = state / pow2(pos);
    assert((q + shifted) % 2 == q % 2) by {
        lemma_mod_multiples_vanish(pow2(rest) as int, q as int, 2);
    }
}

/// `(a + d * k) / d == a / d + k` for a positive divisor.
proof fn lemma_div_plus_multiple(a: nat, d: nat, k: nat)
    requires
        d > 0,
    ensures
        (a + d * k) / d == a / d + k,
{
    lemma_div_multiples_vanish_fancy(k as int, (a % d) as int, d as int);
    lemma_fundamental_div_mod(a as int, d as int);
    let q = a / d;
    let r = a % d;
    assert(a + d * k == d * (q + k) + r) by (nonlinear_arith)
        requires
            a == d * q + r,
    ;
    lemma_fundamental_div_mod_converse((a + d * k) as int, d as int, (q + k) as int, r as int);
}

/// The bits of `state` in `width` positions encode `state` modulo `2^width`.
proof fn lemma_state_of_bits_of(width: nat, state: nat)
    ensures
        is_bit_string(bits_of(width, state)),
        state_of(bits_of(width, state)) == state % pow2(width),
    decreases width,
{
    let bits = bits_of(width, state);
    if width == 0 {
        lemma2_to64();
    } else {
        let top = (width - 1) as nat;
        lemma_state_of_bits_of(top, state);
        assert(bits.drop_last() =~= bits_of(top, state));
        lemma_pow2_pos(top);
        lemma_pow2_unfold(width);
        lemma_mod_split(state, pow2(top));
    }
}

/// `a % (2 * d) == a % d + d * ((a / d) % 2)` for a positive `d`.
proof fn lemma_mod_split(a: nat, d: nat)
    requires
        d > 0,
    ensures
        a % (2 * d) == a % d + d * ((a / d) % 2),
{
    let q = a / d;
    let r = a % d;
    lemma_fundamental_div_mod(a as int, d as int);
    lemma_fundamental_div_mod(q as int, 2);
    let h = q / 2;
    let b = q % 2;
    assert(a == h * (2 * d) + (r + d * b)) by (nonlinear_arith)
        requires
            a == d * q + r,
            q == 2 * h + b,
    ;
    assert(0 <= r + d * b < 2 * d) by (nonlinear_arith)
        requires
            0 <= r < d,
            0 <= b < 2,
    ;
    lemma_fundamental_div_mod_converse(a as int, (2 * d) as int, h as int, (r + d * b) as int);
}

/// Computes `2^exponent`.
pub(crate) fn power_of_two(exponent: u32) -> (r: u64)
    requires
        exponent < 64,
    ensures
        r == pow2(exponent as nat),
{
    let mut r: u64 = 1;
    let mut done: u32 = 0;
    proof {
        lemma2_to64();
    }
    while done < exponent
        invariant
            done <= exponent < 64,
            r == pow2(done as nat),
        decreases exponent - done,
    {
        proof {
            lemma_pow2_unfold((done + 1) as nat);
            lemma_pow2_strictly_increases((done + 1) as nat, 64);
            lemma2_to64_rest();
        }
        r = r * 2;
        done = done + 1;
    }
    r
}

/// A non-quantum register of `width()` bits.
#[derive(Debug, PartialEq, Eq)]
pub struct ClassicalRegister {
    bits: Vec<u8>,
}

impl View for ClassicalRegister {
    type V = Seq<u8>;

    /// The register's bits, leftmost first.
    closed spec fn view(&self) -> Seq<u8> {
        self.bits@
    }
}

impl ClassicalRegister {
    #[verifier::type_invariant]
    spec fn well_formed(self) -> bool {
        is_bit_string(self.bits@)
    }

    /// Constructs a register from a vector of ones and zeroes. The width is
    /// the vector's length.
    pub fn new(bits: Vec<u8>) -> (r: Result<ClassicalRegister, QuantumError>)
        ensures
            match r {
                Ok(register) => is_bit_string(bits@) && register@ == bits@,
                Err(e) => !is_bit_string(bits@) && e == QuantumError::InvalidBit,
            },
    {
        let mut i: usize = 0;
        while i < bits.len()
            invariant
                i <= bits.len(),
                forall|k: int| 0 <= k < i ==> bits@[k] == 0 || bits@[k] == 1,
            decreases bits.len() - i,
        {
            if bits[i] != 0 && bits[i] != 1 {
                return Err(QuantumError::InvalidBit);
            }
            i = i + 1;
        }
        Ok(ClassicalRegister { bits })
    }

    /// Constructs the register of the given width whose state is `state`.
    ///
    /// The state is rejected when it does not fit into `width` bits.
    pub fn from_state(width: usize, state: u32) -> (r: Result<ClassicalRegister, QuantumError>)
        ensures
            match r {
                Ok(register) => {
                    &&& state < pow2(width as nat)
                    &&& register@ == bits_of(width as nat, state as nat)
                    &&& state_of(register@) == state
                },
                Err(e) => state >= pow2(width as nat) && e == QuantumError::Range,
            },
    {
        if width < 32 {
            let limit = power_of_two(width as u32);
            if state as u64 >= limit {
                return Err(QuantumError::Range);
            }
        } else {
            proof {
                lemma2_to64();
                if width > 32 {
                    lemma_pow2_strictly_increases(32, width as nat);
                }
            }
        }
        let mut bits: Vec<u8> = Vec::new();
        let mut remaining: u32 = state;
        let mut pos: usize = 0;
        proof {
            lemma2_to64();
            assert(bits@ =~= bits_of(0, state as nat));
        }
        while pos < width
            invariant
                pos <= width,
                bits@ == bits_of(pos as nat, state as nat),
                remaining == state as nat / pow2(pos as nat),
            decreases width - pos,
        {
            let bit: u8 = if remaining % 2 == 1 {
                1
            } else {
                0
            };
            bits.push(bit);
            proof {
                lemma_pow2_pos(pos as nat);
                lemma_pow2_unfold((pos + 1) as nat);
                lemma_div_denominator(state as int, pow2(pos as nat) as int, 2);
                assert(pow2(pos as nat) * 2 == pow2((pos + 1) as nat));
                assert(bits@ =~= bits_of((pos + 1) as nat, state as nat));
            }
            remaining = remaining / 2;
            pos = pos + 1;
        }
        proof {
            lemma_state_round_trip(width as nat, state as nat);
        }
        Ok(ClassicalRegister { bits })
    }

    /// Constructs the register of the given width that represents `value`.
    ///
    /// The encoding is that of `from_state`.
    pub fn from_int(width: usize, value: u32) -> (r: Result<ClassicalRegister, QuantumError>)
        ensures
            match r {
                Ok(register) => {
                    &&& value < pow2(width as nat)
                    &&& register@ == bits_of(width as nat, value as nat)
                    &&& state_of(register@) == value
                },
                Err(e) => value >= pow2(width as nat) && e == QuantumError::Range,
            },
    {
        ClassicalRegister::from_state(width, value)
    }

    /// Constructs the register of the given width whose bits are all zero.
    pub fn zeroed(width: usize) -> (r: ClassicalRegister)
        ensures
            r@ == Seq::new(width as nat, |i: int| 0u8),
            state_of(r@) == 0,
    {
        let bits: Vec<u8> = vec![0u8; width];
        proof {
            assert(bits@ =~= Seq::new(width as nat, |i: int| 0u8));
            lemma_zero_bits(bits@);
        }
        ClassicalRegister { bits }
    }

    /// The number of bits.
    pub fn width(&self) -> (w: usize)
        ensures
            w == self@.len(),
            is_bit_string(self@),
    {
        proof {
            use_type_invariant(self);
        }
        self.bits.len()
    }

    /// The register's state: the integer that encodes all of its bits, with
    /// the leftmost bit the least significant.
    pub fn state(&self) -> (s: u32)
        requires
            self@.len() <= 32,
        ensures
            s == state_of(self@),
            s < pow2(self@.len()),
    {
        proof {
            use_type_invariant(self);
            lemma2_to64();
            lemma2_to64_rest();
        }
        let mut state: u64 = 0;
        let mut weight: u64 = 1;
        let mut pos: usize = 0;
        while pos < self.bits.len()
            invariant
                pos <= self.bits.len() <= 32,
                is_bit_string(self.bits@),
                state == state_of(self.bits@.take(pos as int)),
                weight == pow2(pos as nat),
                state < weight,
                pow2(32) == 0x1_0000_0000,
            decreases self.bits.len() - pos,
        {
            proof {
                assert(self.bits@.take(pos + 1).drop_last() =~= self.bits@.take(pos as int));
                lemma_pow2_unfold((pos + 1) as nat);
                if pos + 1 < 32 {
                    lemma_pow2_strictly_increases((pos + 1) as nat, 32);
                }
            }
            if self.bits[pos] != 0 {
                state = state + weight;
            }
            weight = weight * 2;
            pos = pos + 1;
        }
        proof {
            assert(self.bits@.take(pos as int) =~= self.bits@);
            if pos < 32 {
                lemma_pow2_strictly_increases(pos as nat, 32);
            }
        }
        state as u32
    }

    /// The integer represented by this register, which is its state.
    pub fn to_int(&self) -> (s: u32)
        requires
            self@.len() <= 32,
        ensures
            s == state_of(self@),
            s < pow2(self@.len()),
    {
        self.state()
    }
}

/// A bit string of zeroes encodes the state 0.
proof fn lemma_zero_bits(bits: Seq<u8>)
    requires
        forall|i: int| 0 <= i < bits.len() ==> bits[i] == 0,
    ensures
        state_of(bits) == 0,
    decreases bits.len(),
{
    if bits.len() > 0 {
        lemma_zero_bits(bits.drop_last());
    }
}

} // verus!
