//! Addition, subtraction, multiplication and division of singles: the exact
//! result, rounded to the nearest single.

use vstd::prelude::*;
#[allow(unused_imports)]
use vstd::arithmetic::power2::{lemma2_to64, lemma_pow2_adds, lemma_pow2_pos, lemma_pow2_unfold, pow2};

use super::round::round_cell;
#[allow(unused_imports)]
use super::round::{in_cell, nearest, rounded, CELL_BIAS};
#[allow(unused_imports)]
use super::{grid, lemma_grid_linear, lemma_grid_monotone, F32, INF_MAG, NAN_BITS};

verus! {

impl F32 {
    pub open spec fn not_a_number() -> F32 {
        F32 { bits: NAN_BITS }
    }

    /// `self + other`. The sum of opposite infinities is undefined; an exact
    /// zero is positive unless both operands are negative.
    #[verifier::opaque]
    pub open spec fn add_spec(self, other: F32) -> F32 {
        if self.nan() || other.nan() {
            F32::not_a_number()
        } else if self.infinite() {
            if other.infinite() && self.sign() != other.sign() {
                F32::not_a_number()
            } else {
                self
            }
        } else if other.infinite() {
            other
        } else {
            let sum = self.scaled() + other.scaled();
            if sum == 0 {
                F32::pack(self.sign() && other.sign(), 0)
            } else if sum > 0 {
                F32::pack(false, rounded(sum, 1))
            } else {
                F32::pack(true, rounded(-sum, 1))
            }
        }
    }

    /// `self - other`.
    pub open spec fn sub_spec(self, other: F32) -> F32 {
        self.add_spec(other.neg_spec())
    }

    /// `self * other`. Zero times infinity is undefined.
    #[verifier::opaque]
    pub open spec fn mul_spec(self, other: F32) -> F32 {
        let sign = self.sign() != other.sign();
        if self.nan() || other.nan() {
            F32::not_a_number()
        } else if self.infinite() || other.infinite() {
            if self.mag() == 0 || other.mag() == 0 {
                F32::not_a_number()
            } else {
                F32::pack(sign, INF_MAG as int)
            }
        } else {
            F32::pack(sign, rounded(grid(self.mag()) * grid(other.mag()), pow2(149) as int))
        }
    }

    /// `self / other`. Zero by zero and infinity by infinity are undefined; any
    /// other number divided by zero is infinite.
    #[verifier::opaque]
    pub open spec fn div_spec(self, other: F32) -> F32 {
        let sign = self.sign() != other.sign();
        if self.nan() || other.nan() || (self.infinite() && other.infinite()) || (self.mag() == 0
            && other.mag() == 0) {
            F32::not_a_number()
        } else if self.infinite() || other.mag() == 0 {
            F32::pack(sign, INF_MAG as int)
        } else if other.infinite() {
            F32::pack(sign, 0)
        } else {
            F32::pack(sign, rounded(grid(self.mag()) * pow2(149), grid(other.mag())))
        }
    }

    pub fn quiet_nan() -> (r: F32)
        ensures
            r == F32::not_a_number(),
    {
        F32::from_bits(NAN_BITS)
    }

    pub fn add(self, other: F32) -> (r: F32)
        ensures
            r == self.add_spec(other),
    {
        proof {
            reveal(F32::add_spec);
        }
        if self.is_nan() || other.is_nan() {
            return F32 { bits: NAN_BITS };
        }
        if self.is_infinite() {
            if other.is_infinite() && self.is_negative() != other.is_negative() {
                return F32 { bits: NAN_BITS };
            }
            return self;
        }
        if other.is_infinite() {
            return other;
        }
        let a: u32 = self.magnitude();
        let b: u32 = other.magnitude();
        proof {
            lemma_mag_order(a as int, b as int);
        }
        if self.is_negative() == other.is_negative() {
            if a == 0 && b == 0 {
                return F32::from_parts(self.is_negative(), 0);
            }
            let p: u32 = if a >= b {
                add_magnitudes(a, b)
            } else {
                add_magnitudes(b, a)
            };
            F32::from_parts(self.is_negative(), p)
        } else if a == b {
            F32::from_parts(false, 0)
        } else if a > b {
            F32::from_parts(self.is_negative(), sub_magnitudes(a, b))
        } else {
            F32::from_parts(other.is_negative(), sub_magnitudes(b, a))
        }
    }

    pub fn sub(self, other: F32) -> (r: F32)
        ensures
            r == self.sub_spec(other),
    {
        self.add(other.neg())
    }

    pub fn mul(self, other: F32) -> (r: F32)
        ensures
            r == self.mul_spec(other),
    {
        proof {
            reveal(F32::mul_spec);
        }
        if self.is_nan() || other.is_nan() {
            return F32 { bits: NAN_BITS };
        }
        let a: u32 = self.magnitude();
        let b: u32 = other.magnitude();
        let sign: bool = self.is_negative() != other.is_negative();
        if a == INF_MAG || b == INF_MAG {
            if a == 0 || b == 0 {
                return F32 { bits: NAN_BITS };
            }
            return F32::from_parts(sign, INF_MAG);
        }
        F32::from_parts(sign, mul_magnitudes(a, b))
    }

    pub fn div(self, other: F32) -> (r: F32)
        ensures
            r == self.div_spec(other),
    {
        proof {
            reveal(F32::div_spec);
        }
        let a: u32 = self.magnitude();
        let b: u32 = other.magnitude();
        let sign: bool = self.is_negative() != other.is_negative();
        if self.is_nan() || other.is_nan() || (a == INF_MAG && b == INF_MAG) || (a == 0 && b == 0) {
            return F32 { bits: NAN_BITS };
        }
        if a == INF_MAG || b == 0 {
            return F32::from_parts(sign, INF_MAG);
        }
        if b == INF_MAG {
            return F32::from_parts(sign, 0);
        }
        F32::from_parts(sign, div_magnitudes(a, b))
    }
}

/// Equal patterns, equal magnitudes; a larger pattern, a larger magnitude.
proof fn lemma_mag_order(a: int, b: int)
    requires
        0 <= a,
        0 <= b,
    ensures
        grid(0) == 0,
        grid(a) >= 0,
        grid(b) >= 0,
        a > 0 <==> grid(a) > 0,
        b > 0 <==> grid(b) > 0,
        a < b <==> grid(a) < grid(b),
        a == b <==> grid(a) == grid(b),
{
    if a < b {
        lemma_grid_monotone(a, b);
    } else if b < a {
        lemma_grid_monotone(b, a);
    }
    if a > 0 {
        lemma_grid_monotone(0, a);
    }
    if b > 0 {
        lemma_grid_monotone(0, b);
    }
}

/// 2^k as a machine word.
pub fn power_of_two(k: u32) -> (r: u64)
    requires
        k < 64,
    ensures
        r == pow2(k as nat),
        r > 0,
{
    proof {
        lemma2_to64();
        lemma_pow2_pos(k as nat);
        vstd::arithmetic::power2::lemma_pow2_strictly_increases(k as nat, 64);
        vstd::bits::lemma_u64_shl_is_mul(1, k as u64);
    }
    1u64 << k
}

/// A finite magnitude as an integer significand and a power of two.
pub fn unpack(mag: u32) -> (r: (u64, u32))
    requires
        mag < INF_MAG,
    ensures
        r.0 < 0x100_0000,
        r.0 > 0 <==> mag > 0,
        r.1 == (if mag >= 0x80_0000 {
            mag as int / 0x80_0000 - 1
        } else {
            0
        }),
        r.1 <= 253,
        r.1 > 0 ==> r.0 >= 0x80_0000,
        grid(mag as int) == r.0 * pow2(r.1 as nat),
{
    if mag >= 0x80_0000 {
        let e: u32 = mag / 0x80_0000 - 1;
        let q: u32 = mag % 0x80_0000 + 0x80_0000;
        proof {
            assert(mag == e * 0x80_0000 + q);
            lemma_grid_linear(e as int, q as int);
        }
        (q as u64, e)
    } else {
        proof {
            lemma_grid_linear(0, mag as int);
        }
        (mag as u64, 0)
    }
}

/// Scaling a cell's index up by 2^24 while its unit shrinks by as much keeps
/// the exact quantity it stands for.
proof fn lemma_cell_widen(num: int, den: int, m: int, e: int)
    requires
        e >= 24,
        den > 0,
        in_cell(num, den, m, e, false),
    ensures
        in_cell(num, den, m * 0x100_0000, e - 24, false),
{
    lemma2_to64();
    lemma_pow2_adds((e - 24) as nat, 24);
    let w = pow2((e - 24) as nat);
    lemma_pow2_pos((e - 24) as nat);
    let x = num * pow2(CELL_BIAS as nat);
    assert(m * (pow2(e as nat) * den) == (m * 0x100_0000) * (w * den)) by (nonlinear_arith)
        requires
            pow2(e as nat) == w * 0x100_0000,
    ;
    assert((m * 0x100_0000 + 1) * (w * den) > (m * 0x100_0000) * (w * den)) by (nonlinear_arith)
        requires
            w > 0,
            den > 0,
    ;
}

/// Rounds the quantity in the cell of `m`, which may be small when it is exact.
pub fn round_any(m: u64, e: u32, sticky: bool, Ghost(num): Ghost<int>, Ghost(den): Ghost<int>) -> (p: u32)
    requires
        den > 0,
        0 < m < 0x8000_0000_0000_0000,
        24 <= e < 0x1_0000,
        sticky ==> m >= 0x100_0000,
        in_cell(num, den, m as int, e as int, sticky),
    ensures
        p == rounded(num, den),
        p <= INF_MAG,
{
    if m < 0x100_0000 {
        proof {
            lemma_cell_widen(num, den, m as int, e as int);
        }
        round_cell(m * 0x100_0000, e - 24, sticky, Ghost(num), Ghost(den))
    } else {
        round_cell(m, e, sticky, Ghost(num), Ghost(den))
    }
}

/// Brings a significand `d` binades down to a common unit that has 38 spare
/// bits: the whole units, and whether something was left over.
fn align(sig: u64, d: u32) -> (r: (u64, bool))
    requires
        sig < 0x100_0000,
    ensures
        r.0 * pow2(d as nat) <= sig * 0x40_0000_0000 < (r.0 + 1) * pow2(d as nat),
        r.1 <==> r.0 * pow2(d as nat) < sig * 0x40_0000_0000,
        r.0 <= sig * 0x40_0000_0000,
        d >= 39 ==> r.0 <= 0x80_0000,
        d < 39 ==> !r.1,
{
    let t: u64 = sig * 0x40_0000_0000;
    proof {
        lemma2_to64();
        lemma_pow2_pos(d as nat);
    }
    if d >= 63 {
        proof {
            lemma_pow2_unfold(64);
            if d > 63 {
                vstd::arithmetic::power2::lemma_pow2_strictly_increases(63, d as nat);
            }
            let w = pow2(d as nat) as int;
            assert(0 * w == 0 && (0 + 1) * w == w) by (nonlinear_arith);
        }
        (0, sig != 0)
    } else {
        let w: u64 = power_of_two(d);
        let v: u64 = t / w;
        let lost: bool = t % w != 0;
        proof {
            vstd::arithmetic::div_mod::lemma_fundamental_div_mod(t as int, w as int);
            assert(w * (t as int / w as int) == v * w) by (nonlinear_arith)
                requires
                    v == t as int / w as int,
            ;
            assert((v + 1) * w == v * w + w) by (nonlinear_arith);
            assert(v <= t) by (nonlinear_arith)
                requires
                    v == t as int / w as int,
                    w >= 1,
                    t >= 0,
            ;
            if d >= 39 {
                lemma_pow2_adds(32, 7);
                if d > 39 {
                    vstd::arithmetic::power2::lemma_pow2_strictly_increases(39, d as nat);
                }
                assert(v <= 0x80_0000) by (nonlinear_arith)
                    requires
                        v * w <= t,
                        w >= 0x80_0000_0000,
                        t < 0x100_0000 * 0x40_0000_0000,
                ;
            } else {
                let rest = pow2((38 - d) as nat);
                lemma_pow2_adds(d as nat, (38 - d) as nat);
                lemma_pow2_adds(32, 6);
                assert(t == (sig * rest) * w) by (nonlinear_arith)
                    requires
                        t == sig * 0x40_0000_0000,
                        w * rest == 0x40_0000_0000,
                ;
                vstd::arithmetic::div_mod::lemma_mod_multiples_basic(sig * rest, w as int);
            }
        }
        (v, lost)
    }
}

/// The sum of two finite magnitudes, the first the larger.
fn add_magnitudes(a: u32, b: u32) -> (p: u32)
    requires
        b <= a < INF_MAG,
        a > 0,
    ensures
        p == rounded(grid(a as int) + grid(b as int), 1),
        p <= INF_MAG,
{
    let (sa, ea) = unpack(a);
    let (sb, eb) = unpack(b);
    let d: u32 = ea - eb;
    let (v, lost) = align(sb, d);
    let e: u32 = ea + 218;
    let ghost num = grid(a as int) + grid(b as int);
    proof {
        lemma_aligned(sa as int, ea as int, sb as int, eb as int, v as int);
        let unit = pow2(e as nat) * 1;
        let t = sa * 0x40_0000_0000;
        assert((t + v) * unit == t * unit + v * unit) by (nonlinear_arith);
        assert((t + v + 1) * unit == t * unit + (v + 1) * unit) by (nonlinear_arith);
        assert(num * pow2(CELL_BIAS as nat) == grid(a as int) * pow2(CELL_BIAS as nat) + grid(
            b as int,
        ) * pow2(CELL_BIAS as nat)) by (nonlinear_arith)
            requires
                num == grid(a as int) + grid(b as int),
        ;
    }
    round_any(sa * 0x40_0000_0000 + v, e, lost, Ghost(num), Ghost(1))
}

/// The difference of two finite magnitudes, the first the larger.
fn sub_magnitudes(a: u32, b: u32) -> (p: u32)
    requires
        b < a < INF_MAG,
    ensures
        p == rounded(grid(a as int) - grid(b as int), 1),
        p <= INF_MAG,
{
    let (sa, ea) = unpack(a);
    let (sb, eb) = unpack(b);
    let d: u32 = ea - eb;
    let (v, lost) = align(sb, d);
    let e: u32 = ea + 218;
    let t: u64 = sa * 0x40_0000_0000;
    let ghost num = grid(a as int) - grid(b as int);
    let ghost scale = pow2(CELL_BIAS as nat) as int;
    let ghost unit = (pow2(e as nat) * 1) as int;
    proof {
        lemma_grid_monotone(b as int, a as int);
        lemma_aligned(sa as int, ea as int, sb as int, eb as int, v as int);
        lemma_pow2_pos(CELL_BIAS as nat);
        lemma_pow2_pos(e as nat);
        assert((t - v) * unit == t * unit - v * unit) by (nonlinear_arith);
        assert((t - v - 1) * unit == t * unit - (v + 1) * unit) by (nonlinear_arith);
        assert((t - v + 1) * unit == (t - v) * unit + unit) by (nonlinear_arith);
        assert(num * scale == grid(a as int) * scale - grid(b as int) * scale) by (nonlinear_arith)
            requires
                num == grid(a as int) - grid(b as int),
        ;
        assert(num * scale > 0) by (nonlinear_arith)
            requires
                num > 0,
                scale > 0,
        ;
    }
    if lost {
        round_any(t - v - 1, e, true, Ghost(num), Ghost(1))
    } else {
        proof {
            assert(t - v > 0) by (nonlinear_arith)
                requires
                    (t - v) * unit > 0,
                    unit > 0,
            ;
        }
        round_any(t - v, e, false, Ghost(num), Ghost(1))
    }
}

/// Two significands over a common unit of 2^(ea + 218 - CELL_BIAS).
proof fn lemma_aligned(sa: int, ea: int, sb: int, eb: int, v: int)
    requires
        0 <= eb <= ea,
        0 <= sa,
        0 <= sb,
        v * pow2((ea - eb) as nat) <= sb * 0x40_0000_0000 < (v + 1) * pow2((ea - eb) as nat),
    ensures
        ({
            let unit = pow2((ea + 218) as nat) * 1;
            let scale = pow2(CELL_BIAS as nat);
            &&& (sa * 0x40_0000_0000) * unit == (sa * pow2(ea as nat)) * scale
            &&& v * unit <= (sb * pow2(eb as nat)) * scale < (v + 1) * unit
            &&& v * unit < (sb * pow2(eb as nat)) * scale <==> v * pow2((ea - eb) as nat) < sb
                * 0x40_0000_0000
        }),
{
    lemma2_to64();
    lemma_pow2_adds(32, 6);
    let unit = pow2((ea + 218) as nat) as int;
    let scale = pow2(CELL_BIAS as nat) as int;
    let wa = pow2(ea as nat) as int;
    let wb = pow2(eb as nat) as int;
    let wd = pow2((ea - eb) as nat) as int;
    let c = pow2(218) as int;
    lemma_pow2_adds(ea as nat, 218);
    lemma_pow2_adds(218, 38);
    lemma_pow2_adds(eb as nat, (ea - eb) as nat);
    lemma_pow2_pos(eb as nat);
    lemma_pow2_pos(218);
    assert(unit == wa * c);
    assert(scale == c * 0x40_0000_0000);
    assert(wa == wb * wd);
    assert((sa * 0x40_0000_0000) * unit == (sa * wa) * scale) by (nonlinear_arith)
        requires
            unit == wa * c,
            scale == c * 0x40_0000_0000,
    ;
    let k = wb * c;
    assert(k > 0) by (nonlinear_arith)
        requires
            wb > 0,
            c > 0,
            k == wb * c,
    ;
    assert(v * unit == (v * wd) * k) by (nonlinear_arith)
        requires
            unit == wa * c,
            wa == wb * wd,
            k == wb * c,
    ;
    assert((v + 1) * unit == ((v + 1) * wd) * k) by (nonlinear_arith)
        requires
            unit == wa * c,
            wa == wb * wd,
            k == wb * c,
    ;
    assert((sb * wb) * scale == (sb * 0x40_0000_0000) * k) by (nonlinear_arith)
        requires
            scale == c * 0x40_0000_0000,
            k == wb * c,
    ;
    lemma_scale_order(v * wd, sb * 0x40_0000_0000, k);
    lemma_scale_order(sb * 0x40_0000_0000, (v + 1) * wd, k);
}

/// Scaling by a positive number keeps the order.
proof fn lemma_scale_order(x: int, y: int, k: int)
    requires
        k > 0,
    ensures
        x <= y <==> x * k <= y * k,
        x < y <==> x * k < y * k,
{
    assert((x <= y <==> x * k <= y * k) && (x < y <==> x * k < y * k)) by (nonlinear_arith)
        requires
            k > 0,
    ;
}

/// The product of two finite magnitudes.
fn mul_magnitudes(a: u32, b: u32) -> (p: u32)
    requires
        a < INF_MAG,
        b < INF_MAG,
    ensures
        p == rounded(grid(a as int) * grid(b as int), pow2(149) as int),
        p <= INF_MAG,
{
    let (sa, ea) = unpack(a);
    let (sb, eb) = unpack(b);
    let ghost num = grid(a as int) * grid(b as int);
    let ghost den = pow2(149) as int;
    proof {
        lemma_pow2_pos(149);
        lemma_mag_order(a as int, b as int);
    }
    if a == 0 || b == 0 {
        proof {
            assert(num == 0) by (nonlinear_arith)
                requires
                    num == grid(a as int) * grid(b as int),
                    grid(a as int) == 0 || grid(b as int) == 0,
            ;
            lemma_zero_rounds(den);
        }
        return 0;
    }
    assert(0 < sa * sb < 0x1_0000_0000_0000) by (nonlinear_arith)
        requires
            0 < sa < 0x100_0000,
            0 < sb < 0x100_0000,
    ;
    let m: u64 = sa * sb;
    let e: u32 = ea + eb + 107;
    proof {
        let wa = pow2(ea as nat) as int;
        let wb = pow2(eb as nat) as int;
        let scale = pow2(CELL_BIAS as nat) as int;
        let we = pow2(e as nat) as int;
        lemma_pow2_adds(ea as nat, eb as nat);
        lemma_pow2_adds((ea + eb) as nat, 107);
        lemma_pow2_adds(107, 149);
        lemma_pow2_pos(e as nat);
        assert(num * scale == m * (we * den)) by (nonlinear_arith)
            requires
                num == (sa * wa) * (sb * wb),
                m == sa * sb,
                we == (wa * wb) * pow2(107),
                scale == pow2(107) * den,
        ;
        assert((m + 1) * (we * den) > m * (we * den)) by (nonlinear_arith)
            requires
                we > 0,
                den > 0,
        ;
    }
    round_any(m, e, false, Ghost(num), Ghost(den))
}

/// Zero rounds to zero.
proof fn lemma_zero_rounds(den: int)
    requires
        den > 0,
    ensures
        rounded(0, den) == 0,
{
    assert(grid(0) == 0 && grid(1) == 1);
    assert(nearest(0, den, 0)) by {
        assert((grid(0) + grid(1)) * den > 0) by (nonlinear_arith)
            requires
                grid(0) + grid(1) == 1,
                den > 0,
        ;
    }
    super::round::lemma_rounded(0, den, 0);
}

/// The quotient of two finite magnitudes, the second not zero.
fn div_magnitudes(a: u32, b: u32) -> (p: u32)
    requires
        a < INF_MAG,
        0 < b < INF_MAG,
    ensures
        p == rounded(grid(a as int) * pow2(149), grid(b as int)),
        p <= INF_MAG,
{
    let (sa, ea) = unpack(a);
    let (sb, eb) = unpack(b);
    let ghost den = grid(b as int);
    let ghost num = grid(a as int) * pow2(149);
    proof {
        lemma_mag_order(a as int, b as int);
    }
    if a == 0 {
        proof {
            assert(num == 0) by (nonlinear_arith)
                requires
                    num == grid(a as int) * pow2(149),
                    grid(a as int) == 0,
            ;
            lemma_zero_rounds(den);
        }
        return 0;
    }
    // Bring the dividend's significand to 24 bits.
    let mut na: u64 = sa;
    let mut k: u32 = 0;
    proof {
        lemma2_to64();
        assert(sa * pow2(0) == sa) by (nonlinear_arith)
            requires
                pow2(0) == 1,
        ;
    }
    while na < 0x80_0000
        invariant
            0 < sa,
            na == sa * pow2(k as nat),
            k <= 23,
            0 < na < 0x100_0000,
        decreases 0x100_0000 - na,
    {
        proof {
            lemma_pow2_unfold((k + 1) as nat);
            assert(na * 2 == sa * pow2((k + 1) as nat)) by (nonlinear_arith)
                requires
                    na == sa * pow2(k as nat),
                    pow2((k + 1) as nat) == 2 * pow2(k as nat),
            ;
            if k == 23 {
                lemma2_to64();
                assert(na >= 0x80_0000) by (nonlinear_arith)
                    requires
                        na == sa * pow2(k as nat),
                        pow2(k as nat) == 0x80_0000,
                        sa >= 1,
                ;
            }
        }
        na = na * 2;
        k = k + 1;
    }
    let t: u64 = na * 0x4000_0000;
    let q: u64 = t / sb;
    let lost: bool = t % sb != 0;
    let e: u32 = ea + 375 - k - eb;
    proof {
        vstd::arithmetic::div_mod::lemma_fundamental_div_mod(t as int, sb as int);
        assert(sb * (t as int / sb as int) == q * sb) by (nonlinear_arith)
            requires
                q == t as int / sb as int,
        ;
        assert((q + 1) * sb == q * sb + sb) by (nonlinear_arith);
        assert(0x100_0000 <= q <= t) by (nonlinear_arith)
            requires
                q * sb <= t < (q + 1) * sb,
                0 < sb < 0x100_0000,
                t >= 0x80_0000 * 0x4000_0000,
                q >= 0,
        ;
        lemma_quotient_cell(sa as int, ea as int, sb as int, eb as int, na as int, k as int, q as int);
    }
    round_any(q, e, lost, Ghost(num), Ghost(den))
}

/// The cell that a quotient of significands names.
proof fn lemma_quotient_cell(sa: int, ea: int, sb: int, eb: int, na: int, k: int, q: int)
    requires
        0 <= ea <= 253,
        0 <= eb <= 253,
        0 <= k <= 23,
        0 < sb,
        na == sa * pow2(k as nat),
        q * sb <= na * 0x4000_0000 < (q + 1) * sb,
    ensures
        in_cell(
            (sa * pow2(ea as nat)) * pow2(149),
            sb * pow2(eb as nat),
            q,
            ea + 375 - k - eb,
            q * sb < na * 0x4000_0000,
        ),
{
    lemma2_to64();
    let e = ea + 375 - k - eb;
    let wa = pow2(ea as nat) as int;
    let wb = pow2(eb as nat) as int;
    let wk = pow2(k as nat) as int;
    let we = pow2(e as nat) as int;
    let scale = pow2(CELL_BIAS as nat) as int;
    let c = pow2(149) as int;
    let num = (sa * wa) * c;
    let den = sb * wb;
    let x = num * scale;
    let unit = we * den;
    // 2^(e + eb) * 2^30 * 2^k == 2^ea * 2^149 * 2^256
    let f = we * wb;
    lemma_pow2_adds(e as nat, eb as nat);
    lemma_pow2_adds((e + eb) as nat, 30);
    lemma_pow2_adds((e + eb + 30) as nat, k as nat);
    lemma_pow2_adds(ea as nat, 149);
    lemma_pow2_adds((ea + 149) as nat, CELL_BIAS as nat);
    lemma_pow2_pos(e as nat);
    lemma_pow2_pos(eb as nat);
    assert(f * 0x4000_0000 * wk == wa * c * scale);
    assert(f > 0) by (nonlinear_arith)
        requires
            f == we * wb,
            we > 0,
            wb > 0,
    ;
    assert(x == (na * 0x4000_0000) * f) by (nonlinear_arith)
        requires
            x == ((sa * wa) * c) * scale,
            na == sa * wk,
            f * 0x4000_0000 * wk == wa * c * scale,
    ;
    assert(q * unit == (q * sb) * f) by (nonlinear_arith)
        requires
            unit == we * (sb * wb),
            f == we * wb,
    ;
    assert((q + 1) * unit == ((q + 1) * sb) * f) by (nonlinear_arith)
        requires
            unit == we * (sb * wb),
            f == we * wb,
    ;
    lemma_scale_order(q * sb, na * 0x4000_0000, f);
    lemma_scale_order(na * 0x4000_0000, (q + 1) * sb, f);
}

} // verus!
