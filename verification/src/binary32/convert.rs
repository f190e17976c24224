//! Between singles and integers.

use vstd::prelude::*;
#[allow(unused_imports)]
use vstd::arithmetic::power2::{lemma2_to64, lemma_pow2_adds, lemma_pow2_pos, lemma_pow2_unfold, pow2};

use super::arith::{power_of_two, round_any, unpack};
#[allow(unused_imports)]
use super::round::{rounded, CELL_BIAS};
#[allow(unused_imports)]
use super::{grid, lemma_grid_monotone, F32, INF_MAG};

verus! {

/// `x` limited to `low..=high`.
pub open spec fn saturate(x: int, low: int, high: int) -> int {
    if x < low {
        low
    } else if x > high {
        high
    } else {
        x
    }
}

impl F32 {
    /// The integer `n`, rounded to the nearest single.
    #[verifier::opaque]
    pub open spec fn of_int(n: int) -> F32 {
        if n >= 0 {
            F32::pack(false, rounded(n * pow2(149), 1))
        } else {
            F32::pack(true, rounded(-n * pow2(149), 1))
        }
    }

    /// The value with its fraction dropped (meaningless for a NaN; an infinity
    /// yields more than any machine integer holds).
    #[verifier::opaque]
    pub open spec fn truncated(self) -> int {
        let whole = grid(self.mag()) / (pow2(149) as int);
        if self.sign() {
            -whole
        } else {
            whole
        }
    }

    /// The nearest integer, halves away from zero (meaningless for a NaN; an
    /// infinity yields more than any machine integer holds).
    #[verifier::opaque]
    pub open spec fn nearest_integer(self) -> int {
        let whole = (2 * grid(self.mag()) + pow2(149)) / (2 * pow2(149) as int);
        if self.sign() {
            -whole
        } else {
            whole
        }
    }

    /// Conversion to an integer type: the fraction dropped, out-of-range values
    /// at the type's nearest end, a NaN at zero.
    pub open spec fn cast_int(self, low: int, high: int) -> int {
        if self.nan() {
            0
        } else {
            saturate(self.truncated(), low, high)
        }
    }

    /// Conversion of the rounded value to an integer type, out-of-range values
    /// at the type's nearest end, a NaN at zero.
    pub open spec fn round_int(self, low: int, high: int) -> int {
        if self.nan() {
            0
        } else {
            saturate(self.nearest_integer(), low, high)
        }
    }

    /// The single nearest to `n / d`, for integers that singles hold exactly
    /// (below 2^24 in size).
    pub open spec fn of_ratio(n: int, d: int) -> F32 {
        F32::of_int(n).div_spec(F32::of_int(d))
    }

    pub fn ratio(n: i32, d: i32) -> (r: F32)
        ensures
            r == F32::of_ratio(n as int, d as int),
    {
        F32::from_i32(n).div(F32::from_i32(d))
    }

    pub fn from_u64(n: u64) -> (r: F32)
        ensures
            r == F32::of_int(n as int),
    {
        proof {
            reveal(F32::of_int);
        }
        F32::from_parts(false, integer_magnitude(n))
    }

    pub fn from_usize(n: usize) -> (r: F32)
        ensures
            r == F32::of_int(n as int),
    {
        F32::from_u64(n as u64)
    }

    pub fn from_u32(n: u32) -> (r: F32)
        ensures
            r == F32::of_int(n as int),
    {
        F32::from_u64(n as u64)
    }

    pub fn from_i32(n: i32) -> (r: F32)
        ensures
            r == F32::of_int(n as int),
    {
        proof {
            reveal(F32::of_int);
        }
        let wide: i64 = n as i64;
        if wide < 0 {
            F32::from_parts(true, integer_magnitude((-wide) as u64))
        } else {
            F32::from_parts(false, integer_magnitude(wide as u64))
        }
    }

    /// The fraction dropped, saturating, NaN at zero.
    pub fn to_u64(self) -> (r: u64)
        ensures
            r == self.cast_int(0, u64::MAX as int),
    {
        if self.is_nan() {
            return 0;
        }
        let whole: u64 = whole_units(self.magnitude());
        proof {
            reveal(F32::truncated);
            lemma_whole_nonneg(self);
        }
        if self.is_negative() {
            0
        } else {
            whole
        }
    }

    /// The fraction dropped, saturating, NaN at zero.
    pub fn to_u32(self) -> (r: u32)
        ensures
            r == self.cast_int(0, u32::MAX as int),
    {
        let wide: u64 = self.to_u64();
        if wide > u32::MAX as u64 {
            u32::MAX
        } else {
            wide as u32
        }
    }

    /// The fraction dropped, saturating, NaN at zero.
    pub fn to_u16(self) -> (r: u16)
        ensures
            r == self.cast_int(0, u16::MAX as int),
    {
        let wide: u64 = self.to_u64();
        if wide > u16::MAX as u64 {
            u16::MAX
        } else {
            wide as u16
        }
    }

    /// The fraction dropped, saturating, NaN at zero.
    pub fn to_i16(self) -> (r: i16)
        ensures
            r == self.cast_int(i16::MIN as int, i16::MAX as int),
    {
        if self.is_nan() {
            return 0;
        }
        let whole: u64 = whole_units(self.magnitude());
        proof {
            reveal(F32::truncated);
            lemma_whole_nonneg(self);
        }
        if self.is_negative() {
            if whole > 0x8000 {
                i16::MIN
            } else {
                (-(whole as i32)) as i16
            }
        } else if whole > 0x7fff {
            i16::MAX
        } else {
            whole as i16
        }
    }

    /// The nearest integer, halves away from zero, saturating, NaN at zero.
    pub fn round_to_i32(self) -> (r: i32)
        ensures
            r == self.round_int(i32::MIN as int, i32::MAX as int),
    {
        if self.is_nan() {
            return 0;
        }
        let whole: u64 = nearest_units(self.magnitude());
        proof {
            reveal(F32::nearest_integer);
            lemma_whole_nonneg(self);
        }
        if self.is_negative() {
            if whole > 0x8000_0000 {
                i32::MIN
            } else {
                (-(whole as i64)) as i32
            }
        } else if whole > 0x7fff_ffff {
            i32::MAX
        } else {
            whole as i32
        }
    }

    /// The nearest integer, halves away from zero, saturating, NaN at zero.
    pub fn round_to_u64(self) -> (r: u64)
        ensures
            r == self.round_int(0, u64::MAX as int),
    {
        if self.is_nan() {
            return 0;
        }
        let whole: u64 = nearest_units(self.magnitude());
        proof {
            reveal(F32::nearest_integer);
            lemma_whole_nonneg(self);
        }
        if self.is_negative() {
            0
        } else {
            whole
        }
    }
}

/// Magnitudes and their whole parts are not negative.
proof fn lemma_whole_nonneg(x: F32)
    ensures
        grid(x.mag()) / (pow2(149) as int) >= 0,
        (2 * grid(x.mag()) + pow2(149)) / (2 * pow2(149) as int) >= 0,
{
    lemma_pow2_pos(149);
    assert(grid(0) == 0);
    if x.mag() > 0 {
        lemma_grid_monotone(0, x.mag());
    }
    vstd::arithmetic::div_mod::lemma_div_pos_is_pos(grid(x.mag()), pow2(149) as int);
    vstd::arithmetic::div_mod::lemma_div_pos_is_pos(
        2 * grid(x.mag()) + pow2(149),
        2 * pow2(149) as int,
    );
}

/// The magnitude pattern nearest to the integer `n`.
fn integer_magnitude(n: u64) -> (p: u32)
    ensures
        p == rounded(n * pow2(149), 1),
        p <= INF_MAG,
{
    let ghost num = n * pow2(149);
    proof {
        lemma_pow2_adds(149, CELL_BIAS as nat);
        lemma_pow2_unfold(406);
        lemma_pow2_pos(405);
    }
    if n == 0 {
        proof {
            assert(num == 0) by (nonlinear_arith)
                requires
                    num == n * pow2(149),
                    n == 0,
            ;
            assert(grid(0) == 0 && grid(1) == 1);
            assert(super::round::nearest(0, 1, 0));
            super::round::lemma_rounded(0, 1, 0);
        }
        return 0;
    }
    let ghost x = num * pow2(CELL_BIAS as nat);
    proof {
        assert(x == n * pow2(405)) by (nonlinear_arith)
            requires
                x == (n * pow2(149)) * pow2(CELL_BIAS as nat),
                pow2(405) == pow2(149) * pow2(CELL_BIAS as nat),
        ;
    }
    if n < 0x8000_0000_0000_0000 {
        proof {
            assert((n + 1) * pow2(405) > n * pow2(405)) by (nonlinear_arith)
                requires
                    pow2(405) > 0,
            ;
        }
        round_any(n, 405, false, Ghost(num), Ghost(1))
    } else {
        let m: u64 = n / 2;
        let odd: bool = n % 2 == 1;
        proof {
            let w = pow2(405) as int;
            assert(m * (2 * w) <= n * w < (m + 1) * (2 * w)) by (nonlinear_arith)
                requires
                    2 * m <= n < 2 * m + 2,
                    w > 0,
            ;
            assert(odd <==> m * (2 * w) < n * w) by (nonlinear_arith)
                requires
                    odd <==> n == 2 * m + 1,
                    !odd <==> n == 2 * m,
                    w > 0,
            ;
        }
        round_any(m, 406, odd, Ghost(num), Ghost(1))
    }
}

/// floor(grid(mag) * 2^shift / 2^149), at most `u64::MAX`; infinity counts as
/// that.
fn shifted_units(mag: u32, shift: u32) -> (r: u64)
    requires
        mag <= INF_MAG,
        shift <= 1,
    ensures
        r == saturate(
            (grid(mag as int) * pow2(shift as nat)) / (pow2(149) as int),
            0,
            u64::MAX as int,
        ),
{
    let ghost unit = pow2(149) as int;
    let ghost ws = pow2(shift as nat) as int;
    proof {
        lemma2_to64();
        lemma_pow2_pos(149);
    }
    if mag == INF_MAG {
        proof {
            super::lemma_grid_linear(254, 0x80_0000);
            let w = pow2(254) as int;
            lemma_pow2_adds(149, 105);
            lemma_pow2_adds(64, 41);
            lemma_pow2_pos(41);
            assert(grid(INF_MAG as int) * ws >= pow2(64) * unit) by (nonlinear_arith)
                requires
                    grid(INF_MAG as int) == 0x80_0000 * w,
                    w == unit * (pow2(64) * pow2(41)),
                    pow2(41) >= 1,
                    unit > 0,
                    ws >= 1,
                    pow2(64) > 0,
            ;
            lemma_quotient_large(grid(INF_MAG as int) * ws, unit);
        }
        return u64::MAX;
    }
    let (sig, ex) = unpack(mag);
    let e: u32 = ex + shift;
    let ghost g = grid(mag as int) * ws;
    proof {
        lemma_pow2_adds(ex as nat, shift as nat);
        assert(g == sig * pow2(e as nat)) by (nonlinear_arith)
            requires
                g == (sig * pow2(ex as nat)) * ws,
                pow2(e as nat) == pow2(ex as nat) * ws,
        ;
    }
    if e >= 149 {
        let k: u32 = e - 149;
        proof {
            lemma_pow2_adds(k as nat, 149);
            lemma_pow2_pos(k as nat);
            assert(g == (sig * pow2(k as nat)) * unit) by (nonlinear_arith)
                requires
                    g == sig * pow2(e as nat),
                    pow2(e as nat) == pow2(k as nat) * unit,
            ;
            vstd::arithmetic::div_mod::lemma_div_multiples_vanish(sig * pow2(k as nat), unit);
            assert(g / unit == sig * pow2(k as nat)) by {
                assert(unit * (sig * pow2(k as nat)) == (sig * pow2(k as nat)) * unit)
                    by (nonlinear_arith);
            }
        }
        if k >= 41 {
            proof {
                if k > 41 {
                    vstd::arithmetic::power2::lemma_pow2_strictly_increases(41, k as nat);
                }
                lemma_pow2_adds(23, 41);
                assert(sig * pow2(k as nat) >= 0x80_0000 * pow2(41)) by (nonlinear_arith)
                    requires
                        sig >= 0x80_0000,
                        pow2(k as nat) >= pow2(41),
                ;
            }
            u64::MAX
        } else {
            let w: u64 = power_of_two(k);
            proof {
                if k < 40 {
                    vstd::arithmetic::power2::lemma_pow2_strictly_increases(k as nat, 40);
                }
                lemma_pow2_adds(24, 40);
                assert(sig * w < 0x100_0000 * pow2(40)) by (nonlinear_arith)
                    requires
                        sig < 0x100_0000,
                        0 < w <= pow2(40),
                ;
            }
            sig * w
        }
    } else {
        let k: u32 = 149 - e;
        if k >= 24 {
            proof {
                lemma_pow2_adds(24, (k - 24) as nat);
                lemma_pow2_adds(k as nat, e as nat);
                lemma_pow2_pos((k - 24) as nat);
                lemma_pow2_pos(e as nat);
                let wk = pow2(k as nat) as int;
                assert(wk >= 0x100_0000) by (nonlinear_arith)
                    requires
                        wk == 0x100_0000 * pow2((k - 24) as nat),
                        pow2((k - 24) as nat) >= 1,
                ;
                assert(0 <= g < unit) by (nonlinear_arith)
                    requires
                        g == sig * pow2(e as nat),
                        unit == wk * pow2(e as nat),
                        0 <= sig < wk,
                        pow2(e as nat) > 0,
                ;
                vstd::arithmetic::div_mod::lemma_basic_div(g, unit);
            }
            0
        } else {
            let w: u64 = power_of_two(k);
            proof {
                lemma_pow2_adds(k as nat, e as nat);
                lemma_pow2_pos(e as nat);
                let we = pow2(e as nat) as int;
                vstd::arithmetic::div_mod::lemma_div_denominator(g, we, w as int);
                assert(unit == we * w) by (nonlinear_arith)
                    requires
                        unit == w * we,
                ;
                assert(g / we == sig) by {
                    vstd::arithmetic::div_mod::lemma_div_multiples_vanish(sig as int, we);
                    assert(we * sig == sig * we) by (nonlinear_arith);
                }
                vstd::arithmetic::div_mod::lemma_div_pos_is_pos(sig as int, w as int);
                assert(sig as int / w as int <= sig) by {
                    vstd::arithmetic::div_mod::lemma_div_nonincreasing(sig as int, w as int);
                }
            }
            sig / w
        }
    }
}

proof fn lemma_quotient_large(x: int, unit: int)
    requires
        unit > 0,
        x >= pow2(64) * unit,
    ensures
        x / unit >= 0x1_0000_0000_0000_0000,
{
    lemma2_to64();
    vstd::arithmetic::div_mod::lemma_div_is_ordered(pow2(64) * unit, x, unit);
    vstd::arithmetic::div_mod::lemma_div_multiples_vanish(pow2(64) as int, unit);
    assert(unit * pow2(64) == pow2(64) * unit) by (nonlinear_arith);
}

/// The whole part of a magnitude, at most `u64::MAX`.
fn whole_units(mag: u32) -> (r: u64)
    requires
        mag <= INF_MAG,
    ensures
        r == saturate(grid(mag as int) / (pow2(149) as int), 0, u64::MAX as int),
{
    proof {
        lemma2_to64();
        assert(grid(mag as int) * pow2(0) == grid(mag as int)) by (nonlinear_arith)
            requires
                pow2(0) == 1,
        ;
    }
    shifted_units(mag, 0)
}

/// The nearest integer to a magnitude, halves up, at most `u64::MAX`.
fn nearest_units(mag: u32) -> (r: u64)
    requires
        mag <= INF_MAG,
    ensures
        r == saturate(
            (2 * grid(mag as int) + pow2(149)) / (2 * pow2(149) as int),
            0,
            u64::MAX as int,
        ),
{
    let whole: u64 = whole_units(mag);
    let ghost g = grid(mag as int);
    let ghost unit = pow2(149) as int;
    proof {
        lemma2_to64();
        lemma_pow2_pos(149);
        assert(grid(0) == 0);
        if mag > 0 {
            lemma_grid_monotone(0, mag as int);
        }
        assert(g * pow2(1) == 2 * g) by (nonlinear_arith)
            requires
                pow2(1) == 2,
        ;
        lemma_nearest_from_halves(g, unit);
        if g / unit >= 0x100_0000 {
            lemma_large_is_whole(mag as int);
        }
    }
    if whole == u64::MAX {
        return u64::MAX;
    }
    let halves: u64 = shifted_units(mag, 1);
    if halves % 2 == 1 && whole < 0x8000_0000_0000_0000 {
        whole + 1
    } else {
        whole
    }
}

/// From 2^24 on a magnitude has no fraction.
proof fn lemma_large_is_whole(mag: int)
    requires
        0 <= mag,
        grid(mag) / (pow2(149) as int) >= 0x100_0000,
    ensures
        (2 * grid(mag)) / (pow2(149) as int) == 2 * (grid(mag) / (pow2(149) as int)),
{
    lemma2_to64();
    let unit = pow2(149) as int;
    lemma_pow2_pos(149);
    let g = grid(mag);
    vstd::arithmetic::div_mod::lemma_fundamental_div_mod(g, unit);
    let whole = g / unit;
    assert(g >= 0x100_0000 * unit) by (nonlinear_arith)
        requires
            g == unit * whole + g % unit,
            g % unit >= 0,
            whole >= 0x100_0000,
            unit > 0,
    ;
    let base = if mag >= 0x80_0000 {
        mag / 0x80_0000 - 1
    } else {
        0
    };
    let q = mag - base * 0x80_0000;
    super::lemma_grid_linear(base, q);
    if base < 149 {
        vstd::arithmetic::power2::lemma_pow2_strictly_increases(base as nat, 149);
        assert(q * pow2(base as nat) < 0x100_0000 * unit) by (nonlinear_arith)
            requires
                0 <= q < 0x100_0000,
                0 <= pow2(base as nat) < unit,
        ;
        assert(false);
    }
    let k = pow2((base - 149) as nat) as int;
    lemma_pow2_adds((base - 149) as nat, 149);
    assert(g == (q * k) * unit) by (nonlinear_arith)
        requires
            g == q * pow2(base as nat),
            pow2(base as nat) == k * unit,
    ;
    vstd::arithmetic::div_mod::lemma_fundamental_div_mod_converse(g, unit, q * k, 0);
    assert(2 * g == (2 * (q * k)) * unit) by (nonlinear_arith)
        requires
            g == (q * k) * unit,
    ;
    vstd::arithmetic::div_mod::lemma_fundamental_div_mod_converse(2 * g, unit, 2 * (q * k), 0);
}

/// The nearest integer is the whole part, plus one when the number of halves
/// is odd.
proof fn lemma_nearest_from_halves(g: int, unit: int)
    requires
        g >= 0,
        unit > 0,
    ensures
        ({
            let whole = g / unit;
            let halves = (2 * g) / unit;
            let n = (2 * g + unit) / (2 * unit);
            &&& halves == 2 * whole || halves == 2 * whole + 1
            &&& n == whole + halves % 2
        }),
{
    let whole = g / unit;
    let rem = g % unit;
    vstd::arithmetic::div_mod::lemma_fundamental_div_mod(g, unit);
    assert(0 <= rem < unit);
    assert(g == whole * unit + rem) by (nonlinear_arith)
        requires
            g == unit * whole + rem,
    ;
    if 2 * rem < unit {
        assert(2 * g == (2 * whole) * unit + 2 * rem) by (nonlinear_arith)
            requires
                g == whole * unit + rem,
        ;
        vstd::arithmetic::div_mod::lemma_fundamental_div_mod_converse(2 * g, unit, 2 * whole, 2 * rem);
        assert(2 * g + unit == whole * (2 * unit) + (2 * rem + unit)) by (nonlinear_arith)
            requires
                g == whole * unit + rem,
        ;
        vstd::arithmetic::div_mod::lemma_fundamental_div_mod_converse(
            2 * g + unit,
            2 * unit,
            whole,
            2 * rem + unit,
        );
    } else {
        assert(2 * g == (2 * whole + 1) * unit + (2 * rem - unit)) by (nonlinear_arith)
            requires
                g == whole * unit + rem,
        ;
        vstd::arithmetic::div_mod::lemma_fundamental_div_mod_converse(
            2 * g,
            unit,
            2 * whole + 1,
            2 * rem - unit,
        );
        assert(2 * g + unit == (whole + 1) * (2 * unit) + (2 * rem - unit)) by (nonlinear_arith)
            requires
                g == whole * unit + rem,
        ;
        vstd::arithmetic::div_mod::lemma_fundamental_div_mod_converse(
            2 * g + unit,
            2 * unit,
            whole + 1,
            2 * rem - unit,
        );
    }
}

/// An integer outside a range is brought to the nearer end, and one inside stays.
pub proof fn law_integers_saturate(x: int, low: int, high: int)
    requires
        low <= high,
    ensures
        low <= x <= high ==> saturate(x, low, high) == x,
        x <= low ==> saturate(x, low, high) == low,
        high <= x ==> saturate(x, low, high) == high,
{
}

} // verus!
