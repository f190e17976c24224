//! IEEE-754 single-precision numbers, kept by their bit pattern.
//!
//! Levels, samples and ratios travel through the library as [`F32`]. A value is
//! read as an exact multiple of 2^-149, the smallest positive single: see
//! [`grid`] and [`F32::scaled`]. Every operation is stated over that exact
//! reading, so two singles compare, add or round here precisely as the
//! standard says they do.

pub mod arith;
pub mod convert;
pub mod order;
pub mod root;
pub mod round;

use vstd::prelude::*;
#[allow(unused_imports)]
use vstd::arithmetic::power2::pow2;

verus! {

/// Pattern of positive infinity; patterns above it (sign cleared) are NaNs.
pub const INF_MAG: u32 = 0x7f80_0000;

/// The sign bit.
pub const SIGN: u32 = 0x8000_0000;

/// The quiet NaN that an undefined operation yields.
pub const NAN_BITS: u32 = 0x7fc0_0000;

/// A single-precision number, by its bit pattern.
#[derive(Debug, Clone, Copy, PartialEq, Eq, Structural)]
pub struct F32 {
    pub bits: u32,
}

/// The magnitude that the pattern `p` (sign cleared) stands for, in units of
/// 2^-149. Infinity is read as the next power of two after the largest finite
/// number, which orders it above all of them.
pub open spec fn grid(p: int) -> int {
    let exponent = p / 0x80_0000;
    let fraction = p % 0x80_0000;
    if exponent == 0 {
        fraction
    } else {
        (0x80_0000 + fraction) * pow2((exponent - 1) as nat)
    }
}

impl F32 {
    /// Sign bit set?
    pub open spec fn sign(self) -> bool {
        self.bits >= SIGN
    }

    /// The pattern with its sign cleared.
    pub open spec fn mag(self) -> int {
        if self.bits >= SIGN {
            self.bits - SIGN
        } else {
            self.bits as int
        }
    }

    pub open spec fn nan(self) -> bool {
        self.mag() > INF_MAG
    }

    pub open spec fn finite(self) -> bool {
        self.mag() < INF_MAG
    }

    pub open spec fn infinite(self) -> bool {
        self.mag() == INF_MAG
    }

    /// The exact value in units of 2^-149 (meaningless for a NaN).
    pub open spec fn scaled(self) -> int {
        if self.sign() {
            -grid(self.mag())
        } else {
            grid(self.mag())
        }
    }

    /// Position in the total order of patterns: negative NaNs, negative
    /// numbers, -0, +0, positive numbers, positive NaNs.
    pub open spec fn total_key(self) -> int {
        if self.sign() {
            -1 - self.mag()
        } else {
            self.mag()
        }
    }

    /// The number with sign `sign` and magnitude pattern `mag`.
    pub open spec fn pack(sign: bool, mag: int) -> F32 {
        F32 {
            bits: (if sign {
                mag + SIGN
            } else {
                mag
            }) as u32,
        }
    }

    /// `self < other`: false as soon as a NaN is involved, and -0 equals +0.
    pub open spec fn lt_spec(self, other: F32) -> bool {
        !self.nan() && !other.nan() && self.scaled() < other.scaled()
    }

    /// `self <= other`: false as soon as a NaN is involved, and -0 equals +0.
    pub open spec fn le_spec(self, other: F32) -> bool {
        !self.nan() && !other.nan() && self.scaled() <= other.scaled()
    }

    /// `-self`: the sign bit flipped.
    pub open spec fn neg_spec(self) -> F32 {
        Self::pack(!self.sign(), self.mag())
    }

    /// `self` limited to `low..=high`; a NaN passes through.
    pub open spec fn clamp_spec(self, low: F32, high: F32) -> F32 {
        if self.lt_spec(low) {
            low
        } else if high.lt_spec(self) {
            high
        } else {
            self
        }
    }

    /// The larger of two numbers; a NaN yields to the other operand.
    pub open spec fn max_spec(self, other: F32) -> F32 {
        if self.nan() || self.lt_spec(other) {
            other
        } else {
            self
        }
    }

    pub fn from_bits(bits: u32) -> (r: F32)
        ensures
            r.bits == bits,
    {
        F32 { bits }
    }

    pub fn to_bits(self) -> (r: u32)
        ensures
            r == self.bits,
    {
        self.bits
    }

    pub fn is_negative(self) -> (r: bool)
        ensures
            r == self.sign(),
    {
        self.bits >= SIGN
    }

    /// The pattern with its sign cleared.
    pub fn magnitude(self) -> (r: u32)
        ensures
            r == self.mag(),
    {
        if self.bits >= SIGN {
            self.bits - SIGN
        } else {
            self.bits
        }
    }

    pub fn is_nan(self) -> (r: bool)
        ensures
            r == self.nan(),
    {
        self.magnitude() > INF_MAG
    }

    pub fn is_finite(self) -> (r: bool)
        ensures
            r == self.finite(),
    {
        self.magnitude() < INF_MAG
    }

    pub fn is_infinite(self) -> (r: bool)
        ensures
            r == self.infinite(),
    {
        self.magnitude() == INF_MAG
    }

    /// A single with the given sign and magnitude pattern.
    pub fn from_parts(sign: bool, mag: u32) -> (r: F32)
        requires
            mag < SIGN,
        ensures
            r == F32::pack(sign, mag as int),
            r.sign() == sign,
            r.mag() == mag,
    {
        if sign {
            F32 { bits: mag + SIGN }
        } else {
            F32 { bits: mag }
        }
    }

    /// Position in the total order of patterns, as an integer that sorts.
    pub fn order_key(self) -> (r: i64)
        ensures
            r == self.total_key(),
    {
        if self.bits >= SIGN {
            -1 - (self.bits - SIGN) as i64
        } else {
            self.bits as i64
        }
    }

    pub fn neg(self) -> (r: F32)
        ensures
            r == self.neg_spec(),
            r.sign() == !self.sign(),
            r.mag() == self.mag(),
    {
        F32::from_parts(!self.is_negative(), self.magnitude())
    }

    /// The magnitude pattern with its sign, as an integer that orders all
    /// numbers but NaNs by value.
    fn signed_mag(self) -> (r: i64)
        ensures
            r == (if self.sign() {
                -self.mag()
            } else {
                self.mag()
            }),
    {
        if self.bits >= SIGN {
            -((self.bits - SIGN) as i64)
        } else {
            self.bits as i64
        }
    }

    pub fn lt(self, other: F32) -> (r: bool)
        ensures
            r == self.lt_spec(other),
    {
        if self.is_nan() || other.is_nan() {
            return false;
        }
        proof {
            lemma_scaled_order(self, other);
        }
        self.signed_mag() < other.signed_mag()
    }

    pub fn le(self, other: F32) -> (r: bool)
        ensures
            r == self.le_spec(other),
    {
        if self.is_nan() || other.is_nan() {
            return false;
        }
        proof {
            lemma_scaled_order(self, other);
        }
        self.signed_mag() <= other.signed_mag()
    }

    /// The larger of two numbers; a NaN yields to the other operand.
    pub fn max(self, other: F32) -> (r: F32)
        ensures
            r == self.max_spec(other),
    {
        if self.is_nan() || self.lt(other) {
            other
        } else {
            self
        }
    }

    /// `self` limited to `low..=high`; a NaN passes through.
    pub fn clamp(self, low: F32, high: F32) -> (r: F32)
        requires
            low.le_spec(high),
        ensures
            r == self.clamp_spec(low, high),
    {
        if self.lt(low) {
            low
        } else if high.lt(self) {
            high
        } else {
            self
        }
    }
}

/// Within a binade the grid is linear: `q` steps of size 2^base.
pub proof fn lemma_grid_linear(base: int, q: int)
    requires
        0 <= base,
        0 <= q <= 0x100_0000,
        base == 0 || q >= 0x80_0000,
    ensures
        grid(base * 0x80_0000 + q) == q * pow2(base as nat),
{
    vstd::arithmetic::power2::lemma2_to64();
    let p = base * 0x80_0000 + q;
    if q == 0x100_0000 {
        assert(p / 0x80_0000 == base + 2);
        assert(p % 0x80_0000 == 0);
        vstd::arithmetic::power2::lemma_pow2_unfold((base + 1) as nat);
        assert(0x80_0000 * pow2((base + 1) as nat) == 0x100_0000 * pow2(base as nat));
    } else if q >= 0x80_0000 {
        assert(p / 0x80_0000 == base + 1);
        assert(p % 0x80_0000 == q - 0x80_0000);
    } else {
        assert(p / 0x80_0000 == 0);
        assert(p % 0x80_0000 == q);
        assert(q * pow2(0) == q) by (nonlinear_arith)
            requires
                pow2(0) == 1,
        ;
    }
}

/// The grid is strictly increasing.
pub proof fn lemma_grid_step(p: int)
    requires
        0 <= p,
    ensures
        0 <= grid(p) < grid(p + 1),
{
    let e = p / 0x80_0000;
    let f = p % 0x80_0000;
    if e == 0 {
        lemma_grid_linear(0, f);
        lemma_grid_linear(0, f + 1);
        vstd::arithmetic::power2::lemma2_to64();
        assert(p == f);
        assert(f * pow2(0) == f && (f + 1) * pow2(0) == f + 1) by (nonlinear_arith)
            requires
                pow2(0) == 1,
        ;
    } else {
        let base = e - 1;
        let q = f + 0x80_0000;
        assert(p == base * 0x80_0000 + q);
        lemma_grid_linear(base, q);
        lemma_grid_linear(base, q + 1);
        vstd::arithmetic::power2::lemma_pow2_pos(base as nat);
        assert(q * pow2(base as nat) < (q + 1) * pow2(base as nat)) by (nonlinear_arith)
            requires
                pow2(base as nat) > 0,
        ;
        assert(0 <= q * pow2(base as nat)) by (nonlinear_arith)
            requires
                pow2(base as nat) > 0,
                q >= 0,
        ;
    }
}

/// Order on patterns is order on magnitudes.
pub proof fn lemma_grid_monotone(p: int, q: int)
    requires
        0 <= p < q,
    ensures
        0 <= grid(p) < grid(q),
    decreases q - p,
{
    lemma_grid_step(p);
    if p + 1 < q {
        lemma_grid_monotone(p + 1, q);
    }
}

/// Signed magnitude patterns order numbers as their exact values do.
pub proof fn lemma_scaled_order(a: F32, b: F32)
    ensures
        ({
            let x = if a.sign() { -a.mag() } else { a.mag() };
            let y = if b.sign() { -b.mag() } else { b.mag() };
            &&& (x < y <==> a.scaled() < b.scaled())
            &&& (x <= y <==> a.scaled() <= b.scaled())
        }),
{
    let p = a.mag();
    let q = b.mag();
    if p < q {
        lemma_grid_monotone(p, q);
    }
    if q < p {
        lemma_grid_monotone(q, p);
    }
    assert(grid(0) == 0);
    if 0 < p {
        lemma_grid_monotone(0, p);
    }
    if 0 < q {
        lemma_grid_monotone(0, q);
    }
}

} // verus!
