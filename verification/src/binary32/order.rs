//! Rounding keeps order: what an exact result lies between, its rounding lies
//! between too.

use vstd::prelude::*;
#[allow(unused_imports)]
use vstd::arithmetic::power2::{lemma2_to64, lemma_pow2_adds, lemma_pow2_pos, lemma_pow2_unfold, pow2};

#[allow(unused_imports)]
use super::round::{lemma_rounded, nearest, rounded};
#[allow(unused_imports)]
use super::{grid, lemma_grid_linear, lemma_grid_monotone, lemma_grid_step, lemma_scaled_order, F32, INF_MAG};

verus! {

/// Searching upward from `p` ends at the nearest pattern.
proof fn lemma_nearest_from(num: int, den: int, p: int) -> (q: int)
    requires
        den > 0,
        0 <= p <= INF_MAG,
        p > 0 ==> 2 * num > (grid(p - 1) + grid(p)) * den || (2 * num == (grid(p - 1) + grid(p))
            * den && p % 2 == 0),
    ensures
        nearest(num, den, q),
    decreases INF_MAG - p,
{
    if p == INF_MAG {
        p
    } else {
        let middle = (grid(p) + grid(p + 1)) * den;
        if 2 * num < middle || (2 * num == middle && p % 2 == 0) {
            p
        } else {
            lemma_nearest_from(num, den, p + 1)
        }
    }
}

/// Every quantity has a nearest pattern.
pub proof fn lemma_rounded_is_nearest(num: int, den: int)
    requires
        den > 0,
    ensures
        nearest(num, den, rounded(num, den)),
        0 <= rounded(num, den) <= INF_MAG,
{
    let q = lemma_nearest_from(num, den, 0);
    lemma_rounded(num, den, q);
}

/// A larger quantity never rounds to a smaller pattern.
pub proof fn lemma_rounded_monotone(low: int, high: int, den: int)
    requires
        den > 0,
        low <= high,
    ensures
        rounded(low, den) <= rounded(high, den),
{
    lemma_rounded_is_nearest(low, den);
    lemma_rounded_is_nearest(high, den);
    let p = rounded(low, den);
    let q = rounded(high, den);
    if q < p {
        let below = grid(q) + grid(q + 1);
        let above = grid(p - 1) + grid(p);
        if q + 1 < p {
            lemma_grid_monotone(q, p - 1);
            lemma_grid_monotone(q + 1, p);
            assert(below * den < above * den) by (nonlinear_arith)
                requires
                    below < above,
                    den > 0,
            ;
        }
        assert(false);
    }
}

/// What is on the grid rounds to itself.
pub proof fn lemma_grid_rounds_to_itself(p: int)
    requires
        0 <= p <= INF_MAG,
    ensures
        rounded(grid(p), 1) == p,
{
    lemma_grid_step(p);
    if p > 0 {
        lemma_grid_step(p - 1);
    }
    lemma_rounded(grid(p), 1, p);
}

/// An exact quantity, in units of 2^-149, rounded with its sign.
pub open spec fn round_signed(v: int) -> F32 {
    if v >= 0 {
        F32::pack(false, rounded(v, 1))
    } else {
        F32::pack(true, rounded(-v, 1))
    }
}

/// Rounding keeps a quantity on its side of any number.
pub proof fn lemma_round_signed_order(v: int, c: F32)
    requires
        !c.nan(),
    ensures
        !round_signed(v).nan(),
        c.scaled() <= v ==> c.scaled() <= round_signed(v).scaled(),
        v <= c.scaled() ==> round_signed(v).scaled() <= c.scaled(),
{
    let r = round_signed(v);
    let m = if v >= 0 {
        v
    } else {
        -v
    };
    lemma_rounded_is_nearest(m, 1);
    assert(r.mag() == rounded(m, 1));
    assert(r.sign() <==> v < 0);
    lemma_scaled_order(c, r);
    lemma_scaled_order(r, c);
    lemma_grid_rounds_to_itself(c.mag());
    assert(grid(0) == 0);
    if c.mag() > 0 {
        lemma_grid_monotone(0, c.mag());
    }
    if r.mag() > 0 {
        lemma_grid_monotone(0, r.mag());
    }
    if v >= 0 {
        if !c.sign() {
            if c.scaled() <= v {
                lemma_rounded_monotone(grid(c.mag()), v, 1);
            }
            if v <= c.scaled() {
                lemma_rounded_monotone(v, grid(c.mag()), 1);
            }
        } else if v <= c.scaled() {
            lemma_grid_rounds_to_itself(0);
        }
    } else {
        if c.sign() {
            if c.scaled() <= v {
                lemma_rounded_monotone(-v, grid(c.mag()), 1);
            }
            if v <= c.scaled() {
                lemma_rounded_monotone(grid(c.mag()), -v, 1);
            }
        }
    }
}

/// A sum of finite numbers is their exact sum, rounded.
pub proof fn lemma_add_is_rounded(a: F32, b: F32)
    requires
        a.finite(),
        b.finite(),
    ensures
        !a.add_spec(b).nan(),
        a.add_spec(b).scaled() == round_signed(a.scaled() + b.scaled()).scaled(),
{
    reveal(F32::add_spec);
    let v = a.scaled() + b.scaled();
    lemma_round_signed_order(v, F32 { bits: 0 });
    if v == 0 {
        lemma_grid_rounds_to_itself(0);
        assert(grid(0) == 0);
    }
}

/// A sum stays at or above (below) whatever number the exact sum does.
pub proof fn lemma_add_order(a: F32, b: F32, c: F32)
    requires
        a.finite(),
        b.finite(),
        !c.nan(),
    ensures
        !a.add_spec(b).nan(),
        c.scaled() <= a.scaled() + b.scaled() ==> c.le_spec(a.add_spec(b)),
        a.scaled() + b.scaled() <= c.scaled() ==> a.add_spec(b).le_spec(c),
{
    lemma_add_is_rounded(a, b);
    lemma_round_signed_order(a.scaled() + b.scaled(), c);
}

/// Negation flips the exact value.
pub proof fn lemma_neg_scaled(a: F32)
    ensures
        a.neg_spec().scaled() == -a.scaled(),
        a.neg_spec().mag() == a.mag(),
{
}

/// A difference stays at or above (below) whatever number the exact one does.
pub proof fn lemma_sub_order(a: F32, b: F32, c: F32)
    requires
        a.finite(),
        b.finite(),
        !c.nan(),
    ensures
        !a.sub_spec(b).nan(),
        c.scaled() <= a.scaled() - b.scaled() ==> c.le_spec(a.sub_spec(b)),
        a.scaled() - b.scaled() <= c.scaled() ==> a.sub_spec(b).le_spec(c),
{
    lemma_neg_scaled(b);
    lemma_add_order(a, b.neg_spec(), c);
}

/// One, in units of 2^-149.
pub open spec fn unit() -> int {
    pow2(149) as int
}

/// Whole numbers of up to 24 bits are on the grid.
pub proof fn lemma_whole_on_grid(n: int) -> (p: int)
    requires
        0 <= n <= 0x100_0000,
    ensures
        0 <= p < INF_MAG,
        grid(p) == n * unit(),
{
    lemma_whole_scaled_on_grid(n, 149)
}

/// So are their multiples by a power of two.
pub proof fn lemma_whole_scaled_on_grid(n: int, k: int) -> (p: int)
    requires
        0 <= n <= 0x100_0000,
        0 <= k <= 200,
    ensures
        0 <= p < INF_MAG,
        grid(p) == n * pow2(k as nat),
    decreases k,
{
    if n >= 0x80_0000 || k == 0 {
        lemma_grid_linear(k, n);
        k * 0x80_0000 + n
    } else {
        lemma_pow2_unfold(k as nat);
        assert(n * pow2(k as nat) == (2 * n) * pow2((k - 1) as nat)) by (nonlinear_arith)
            requires
                pow2(k as nat) == 2 * pow2((k - 1) as nat),
        ;
        lemma_whole_scaled_on_grid(2 * n, k - 1)
    }
}

/// Whole numbers of up to 24 bits are held exactly.
pub proof fn lemma_of_int_exact(n: int)
    requires
        -0x100_0000 <= n <= 0x100_0000,
    ensures
        F32::of_int(n).finite(),
        F32::of_int(n).scaled() == n * unit(),
{
    let m = if n >= 0 {
        n
    } else {
        -n
    };
    let p = lemma_whole_on_grid(m);
    lemma_grid_rounds_to_itself(p);
    assert((-n) * unit() == -(n * unit())) by (nonlinear_arith);
    reveal(F32::of_int);
}

/// A number that is not below zero, by its sign bit.
pub open spec fn positive(a: F32) -> bool {
    !a.sign() && !a.nan()
}

/// A number's place among the numbers, counted from the lowest.
pub open spec fn rank(a: F32) -> nat {
    (if a.sign() {
        0x8000_0000 - a.mag()
    } else {
        0x8000_0000 + a.mag()
    }) as nat
}

/// Larger counts are held as larger numbers.
pub proof fn lemma_of_int_monotone(n: int, m: int)
    requires
        0 <= n <= m <= u64::MAX,
    ensures
        positive(F32::of_int(n)),
        positive(F32::of_int(m)),
        F32::of_int(m).finite(),
        F32::of_int(n).mag() <= F32::of_int(m).mag(),
        n > 0 ==> F32::of_int(n).mag() > 0,
{
    reveal(F32::of_int);
    let u = unit();
    lemma_pow2_pos(149);
    let top = lemma_whole_scaled_on_grid(0x100_0000, 189);
    lemma2_to64();
    lemma_pow2_adds(8, 32);
    lemma_pow2_adds(40, 149);
    assert(0x100_0000 * pow2(189) == 0x1_0000_0000_0000_0000 * u) by (nonlinear_arith)
        requires
            pow2(189) == pow2(40) * u,
            pow2(40) == 0x100_0000_0000,
    ;
    assert(0 <= n * u <= m * u <= 0x1_0000_0000_0000_0000 * u) by (nonlinear_arith)
        requires
            0 <= n <= m <= 0x1_0000_0000_0000_0000,
            u > 0,
    ;
    lemma_rounded_is_nearest(n * u, 1);
    lemma_rounded_is_nearest(m * u, 1);
    lemma_rounded_monotone(n * u, m * u, 1);
    lemma_rounded_monotone(m * u, 0x1_0000_0000_0000_0000 * u, 1);
    lemma_grid_rounds_to_itself(top);
    if n > 0 {
        let one = lemma_whole_on_grid(1);
        lemma_grid_rounds_to_itself(one);
        assert(1 * u <= n * u) by (nonlinear_arith)
            requires
                n >= 1,
                u > 0,
        ;
        lemma_rounded_monotone(1 * u, n * u, 1);
        assert(grid(0) == 0);
    }
}

/// A larger share of the same whole is the larger quotient.
pub proof fn lemma_div_monotone(a: F32, b: F32, c: F32)
    requires
        positive(a),
        positive(b),
        positive(c),
        a.mag() <= b.mag(),
        b.finite(),
        c.finite(),
        c.mag() > 0,
    ensures
        positive(a.div_spec(c)),
        positive(b.div_spec(c)),
        a.div_spec(c).mag() <= b.div_spec(c).mag(),
{
    reveal(F32::div_spec);
    let g = grid(c.mag());
    lemma_grid_monotone(0, c.mag());
    if a.mag() < b.mag() {
        lemma_grid_monotone(a.mag(), b.mag());
    }
    assert(grid(a.mag()) * pow2(149) <= grid(b.mag()) * pow2(149)) by (nonlinear_arith)
        requires
            grid(a.mag()) <= grid(b.mag()),
    ;
    lemma_rounded_is_nearest(grid(a.mag()) * pow2(149), g);
    lemma_rounded_is_nearest(grid(b.mag()) * pow2(149), g);
    lemma_rounded_monotone(grid(a.mag()) * pow2(149), grid(b.mag()) * pow2(149), g);
}

/// A product grows with its first factor.
pub proof fn lemma_mul_monotone(a: F32, b: F32, c: F32)
    requires
        positive(a),
        positive(b),
        positive(c),
        a.mag() <= b.mag(),
        c.finite(),
        c.mag() > 0,
    ensures
        positive(a.mul_spec(c)),
        positive(b.mul_spec(c)),
        a.mul_spec(c).mag() <= b.mul_spec(c).mag(),
{
    reveal(F32::mul_spec);
    let g = grid(c.mag());
    lemma_pow2_pos(149);
    lemma_grid_monotone(0, c.mag());
    if a.mag() < b.mag() {
        lemma_grid_monotone(a.mag(), b.mag());
    }
    assert(grid(a.mag()) * g <= grid(b.mag()) * g) by (nonlinear_arith)
        requires
            grid(a.mag()) <= grid(b.mag()),
            g > 0,
    ;
    lemma_rounded_is_nearest(grid(a.mag()) * g, unit());
    lemma_rounded_is_nearest(grid(b.mag()) * g, unit());
    lemma_rounded_monotone(grid(a.mag()) * g, grid(b.mag()) * g, unit());
}

/// A larger number is cast to a larger integer.
pub proof fn lemma_cast_monotone(a: F32, b: F32, low: int, high: int)
    requires
        positive(a),
        positive(b),
        a.mag() <= b.mag(),
        low <= high,
    ensures
        low <= a.cast_int(low, high) <= b.cast_int(low, high) <= high,
{
    reveal(F32::truncated);
    if a.mag() < b.mag() {
        lemma_grid_monotone(a.mag(), b.mag());
    }
    lemma_pow2_pos(149);
    vstd::arithmetic::div_mod::lemma_div_is_ordered(grid(a.mag()), grid(b.mag()), unit());
}

/// Zero is held as positive zero.
pub proof fn lemma_of_int_zero()
    ensures
        F32::of_int(0) == (F32 { bits: 0 }),
{
    reveal(F32::of_int);
    assert(grid(0) == 0);
    lemma_grid_rounds_to_itself(0);
}

/// A quotient is a number unless it is undefined.
pub proof fn lemma_div_defined(a: F32, b: F32)
    requires
        !a.nan(),
        b.finite(),
        b.mag() > 0,
    ensures
        !a.div_spec(b).nan(),
{
    reveal(F32::div_spec);
    lemma_grid_monotone(0, b.mag());
    lemma_rounded_is_nearest(grid(a.mag()) * pow2(149), grid(b.mag()));
}

/// A product of finite numbers is a number.
pub proof fn lemma_mul_defined(a: F32, b: F32)
    requires
        a.finite(),
        b.finite(),
    ensures
        !a.mul_spec(b).nan(),
{
    reveal(F32::mul_spec);
    lemma_pow2_pos(149);
    lemma_rounded_is_nearest(grid(a.mag()) * grid(b.mag()), unit());
}

/// Taking nothing away changes nothing.
pub proof fn lemma_sub_zero(a: F32)
    requires
        positive(a),
        a.finite(),
    ensures
        a.sub_spec(F32 { bits: 0 }) == a,
{
    reveal(F32::add_spec);
    assert(grid(0) == 0);
    lemma_grid_rounds_to_itself(a.mag());
    if a.mag() > 0 {
        lemma_grid_monotone(0, a.mag());
    }
}

/// Nothing, times or divided by a finite number, is nothing.
pub proof fn lemma_zero_absorbs(a: F32)
    requires
        positive(a),
        a.finite(),
    ensures
        (F32 { bits: 0 }).mul_spec(a) == (F32 { bits: 0 }),
        a.mag() > 0 ==> (F32 { bits: 0 }).div_spec(a) == (F32 { bits: 0 }),
{
    reveal(F32::mul_spec);
    reveal(F32::div_spec);
    lemma_pow2_pos(149);
    lemma_zero_quotient(unit());
    assert(grid(0) == 0);
    assert(0 * grid(a.mag()) == 0) by (nonlinear_arith);
    assert(0 * pow2(149) == 0) by (nonlinear_arith);
    if a.mag() > 0 {
        lemma_grid_monotone(0, a.mag());
        lemma_zero_quotient(grid(a.mag()));
    }
}

proof fn lemma_zero_quotient(den: int)
    requires
        den > 0,
    ensures
        rounded(0, den) == 0,
{
    lemma_grid_step(0);
    assert((grid(0) + grid(1)) * den > 0) by (nonlinear_arith)
        requires
            grid(0) + grid(1) > 0,
            den > 0,
    ;
    lemma_rounded(0, den, 0);
}

/// Small integers add up exactly.
pub proof fn lemma_int_add(a: int, b: int)
    requires
        0 <= a,
        0 <= b,
        a + b <= 0x100_0000,
    ensures
        F32::of_int(a).add_spec(F32::of_int(b)) == F32::of_int(a + b),
{
    lemma_of_int_exact(a);
    lemma_of_int_exact(b);
    lemma_of_int_monotone(0, a);
    lemma_of_int_monotone(0, b);
    lemma_of_int_zero();
    reveal(F32::add_spec);
    reveal(F32::of_int);
    let u = unit();
    lemma_pow2_pos(149);
    assert(a * u + b * u == (a + b) * u) by (nonlinear_arith);
    if a + b > 0 {
        assert((a + b) * u > 0) by (nonlinear_arith)
            requires
                a + b > 0,
                u > 0,
        ;
    } else {
        assert(0 * u == 0) by (nonlinear_arith);
    }
}

/// Small integers subtract exactly.
pub proof fn lemma_int_sub(a: int, b: int)
    requires
        0 <= b <= a <= 0x100_0000,
    ensures
        F32::of_int(a).sub_spec(F32::of_int(b)) == F32::of_int(a - b),
{
    lemma_of_int_exact(a);
    lemma_of_int_exact(b);
    lemma_of_int_monotone(b, a);
    lemma_neg_scaled(F32::of_int(b));
    lemma_of_int_zero();
    reveal(F32::add_spec);
    reveal(F32::of_int);
    let u = unit();
    lemma_pow2_pos(149);
    assert(a * u - b * u == (a - b) * u) by (nonlinear_arith);
    if a > b {
        assert((a - b) * u > 0) by (nonlinear_arith)
            requires
                a > b,
                u > 0,
        ;
    } else {
        assert(0 * u == 0) by (nonlinear_arith);
    }
}

/// What divides out before rounding can be divided out.
pub proof fn lemma_rounded_cancels(q: int, den: int)
    requires
        q >= 0,
        den > 0,
    ensures
        rounded(q * den, den) == rounded(q, 1),
{
    lemma_rounded_is_nearest(q, 1);
    let p = rounded(q, 1);
    if p > 0 {
        lemma_scaled_middle(q, grid(p - 1) + grid(p), den);
    }
    if p < INF_MAG {
        lemma_scaled_middle(q, grid(p) + grid(p + 1), den);
    }
    lemma_rounded(q * den, den, p);
}

proof fn lemma_scaled_middle(q: int, middle: int, den: int)
    requires
        den > 0,
    ensures
        2 * q > middle ==> 2 * (q * den) > middle * den,
        2 * q < middle ==> 2 * (q * den) < middle * den,
        2 * q == middle ==> 2 * (q * den) == middle * den,
{
    assert(2 * (q * den) == (2 * q) * den) by (nonlinear_arith);
    if 2 * q > middle {
        assert((2 * q) * den > middle * den) by (nonlinear_arith)
            requires
                2 * q > middle,
                den > 0,
        ;
    }
    if 2 * q < middle {
        assert((2 * q) * den < middle * den) by (nonlinear_arith)
            requires
                2 * q < middle,
                den > 0,
        ;
    }
}

/// A quotient of small integers that comes out even is exact.
pub proof fn lemma_int_ratio(n: int, d: int, q: int)
    requires
        0 < d <= 0x100_0000,
        0 <= q <= 0x100_0000,
        n == q * d,
        n <= 0x100_0000,
    ensures
        F32::of_int(n).div_spec(F32::of_int(d)) == F32::of_int(q),
{
    let u = unit();
    lemma_pow2_pos(149);
    lemma_of_int_exact(d);
    lemma_of_int_monotone(1, d);
    assert(n >= 0) by (nonlinear_arith)
        requires
            n == q * d,
            q >= 0,
            d > 0,
    ;
    lemma_of_int_monotone(0, n);
    lemma_of_int_exact(n);
    reveal(F32::div_spec);
    reveal(F32::of_int);
    let g = grid(F32::of_int(d).mag());
    assert(g == d * u);
    assert(g > 0) by (nonlinear_arith)
        requires
            g == d * u,
            d > 0,
            u > 0,
    ;
    assert((n * u) * u == (q * u) * g) by (nonlinear_arith)
        requires
            n == q * d,
            g == d * u,
    ;
    assert(q * u >= 0) by (nonlinear_arith)
        requires
            q >= 0,
            u > 0,
    ;
    lemma_rounded_cancels(q * u, g);
}

/// A number that is not below zero is given back by its exact value.
pub proof fn lemma_scaled_back(a: F32)
    requires
        positive(a),
    ensures
        a == F32::pack(false, rounded(a.scaled(), 1)),
{
    lemma_grid_rounds_to_itself(a.mag());
}

/// A factor of at most one in size does not make a number larger in size.
pub proof fn lemma_mul_shrinks(a: F32, b: F32)
    requires
        a.finite(),
        b.finite(),
        b.mag() <= F32::of_int(1).mag(),
    ensures
        a.mul_spec(b).finite(),
        a.mul_spec(b).mag() <= a.mag(),
        b.mul_spec(a).finite(),
        b.mul_spec(a).mag() <= a.mag(),
{
    let u = unit();
    lemma_pow2_pos(149);
    lemma_of_int_exact(1);
    lemma_of_int_monotone(1, 1);
    let one = F32::of_int(1).mag();
    if b.mag() < one {
        lemma_grid_monotone(b.mag(), one);
    }
    let ga = grid(a.mag());
    let gb = grid(b.mag());
    assert(grid(0) == 0);
    if a.mag() > 0 {
        lemma_grid_monotone(0, a.mag());
    }
    assert(ga * gb <= ga * u && gb * ga == ga * gb) by (nonlinear_arith)
        requires
            0 <= ga,
            gb <= u,
    ;
    lemma_rounded_is_nearest(ga * gb, u);
    lemma_rounded_monotone(ga * gb, ga * u, u);
    lemma_rounded_cancels(ga, u);
    lemma_grid_rounds_to_itself(a.mag());
    reveal(F32::mul_spec);
}

/// A product of small integers that singles hold is exact.
pub proof fn lemma_int_mul(a: int, b: int, p: int)
    requires
        0 <= a <= 0x100_0000,
        0 <= b <= 0x100_0000,
        0 <= p < INF_MAG,
        grid(p) == (a * b) * unit(),
    ensures
        F32::of_int(a).mul_spec(F32::of_int(b)) == (F32 { bits: p as u32 }),
{
    let u = unit();
    lemma_pow2_pos(149);
    lemma_of_int_exact(a);
    lemma_of_int_exact(b);
    lemma_of_int_monotone(0, a);
    lemma_of_int_monotone(0, b);
    assert((a * u) * (b * u) == ((a * b) * u) * u) by (nonlinear_arith);
    assert((a * b) * u >= 0) by (nonlinear_arith)
        requires
            a >= 0,
            b >= 0,
            u > 0,
    ;
    lemma_rounded_cancels((a * b) * u, u);
    lemma_grid_rounds_to_itself(p);
    reveal(F32::mul_spec);
}

/// An integer that a single holds exactly rounds to itself.
pub proof fn lemma_int_rounds_to_itself(n: int)
    requires
        0 <= n <= 0x100_0000,
    ensures
        F32::of_int(n).nearest_integer() == n,
{
    let u = unit();
    lemma_pow2_pos(149);
    lemma_of_int_exact(n);
    lemma_of_int_monotone(0, n);
    reveal(F32::nearest_integer);
    let g = n * u;
    assert(2 * g + u == n * (2 * u) + u) by (nonlinear_arith)
        requires
            g == n * u,
    ;
    vstd::arithmetic::div_mod::lemma_fundamental_div_mod_converse(2 * g + u, 2 * u, n, u);
}

/// Neighbouring numbers are close: at most 2^-23 of the lower one apart, or one
/// unit.
pub proof fn lemma_fine_gap(p: int)
    requires
        0 < p,
    ensures
        0x80_0000 * (grid(p) - grid(p - 1)) <= grid(p - 1) || grid(p) - grid(p - 1) <= 1,
        grid(p - 1) < grid(p),
{
    lemma2_to64();
    lemma_grid_step(p - 1);
    let e = p / 0x80_0000;
    let f = p % 0x80_0000;
    if e > 0 && (f > 0 || e > 1) {
        let base = if f > 0 {
            e - 1
        } else {
            e - 2
        };
        let q = p - base * 0x80_0000;
        lemma_grid_linear(base, q);
        lemma_grid_linear(base, q - 1);
        let b = pow2(base as nat) as int;
        lemma_pow2_pos(base as nat);
        assert(q * b - (q - 1) * b == b) by (nonlinear_arith);
        assert(0x80_0000 * b <= (q - 1) * b) by (nonlinear_arith)
            requires
                q - 1 >= 0x80_0000,
                b > 0,
        ;
    } else if e == 0 {
        assert(grid(p) == p);
    } else {
        assert(p == 0x80_0000);
        assert(grid(p) == 0x80_0000 * pow2(0));
        assert(grid(p - 1) == p - 1);
    }
}

/// Rounding a whole number of units errs by at most 2^-24 of it.
pub proof fn lemma_rounding_error(x: int)
    requires
        0 <= x,
        rounded(x, 1) < INF_MAG,
    ensures
        0x100_0000 * (grid(rounded(x, 1)) - x) <= x,
        0x100_0000 * (x - grid(rounded(x, 1))) <= x,
{
    lemma_rounded_is_nearest(x, 1);
    let r = rounded(x, 1);
    assert(grid(0) == 0);
    if grid(r) <= x {
        lemma_fine_gap(r + 1);
    } else {
        assert(r > 0);
        lemma_fine_gap(r);
    }
}

/// Adding two numbers that are not below zero errs by at most 2^-24 of the sum.
pub proof fn lemma_add_error(a: F32, b: F32)
    requires
        positive(a),
        positive(b),
        a.finite(),
        b.finite(),
        a.add_spec(b).finite(),
    ensures
        positive(a.add_spec(b)),
        0x100_0000 * (a.add_spec(b).scaled() - (a.scaled() + b.scaled())) <= a.scaled()
            + b.scaled(),
        0x100_0000 * ((a.scaled() + b.scaled()) - a.add_spec(b).scaled()) <= a.scaled()
            + b.scaled(),
{
    reveal(F32::add_spec);
    assert(grid(0) == 0);
    if a.mag() > 0 {
        lemma_grid_monotone(0, a.mag());
    }
    if b.mag() > 0 {
        lemma_grid_monotone(0, b.mag());
    }
    let x = a.scaled() + b.scaled();
    lemma_rounded_is_nearest(x, 1);
    if x > 0 {
        lemma_rounding_error(x);
    }
}

/// Taking a number off one that is not smaller errs by at most 2^-24 of the
/// difference.
pub proof fn lemma_sub_error(a: F32, b: F32)
    requires
        positive(a),
        positive(b),
        a.finite(),
        b.finite(),
        b.scaled() <= a.scaled(),
        a.sub_spec(b).finite(),
    ensures
        0x100_0000 * (a.sub_spec(b).scaled() - (a.scaled() - b.scaled())) <= a.scaled()
            - b.scaled(),
        0x100_0000 * ((a.scaled() - b.scaled()) - a.sub_spec(b).scaled()) <= a.scaled()
            - b.scaled(),
{
    reveal(F32::add_spec);
    assert(grid(0) == 0);
    lemma_neg_scaled(b);
    let x = a.scaled() - b.scaled();
    lemma_rounded_is_nearest(x, 1);
    if x > 0 {
        lemma_rounding_error(x);
    }
}

/// The size of a number.
pub open spec fn size(v: int) -> int {
    if v >= 0 {
        v
    } else {
        -v
    }
}

/// Sums and differences are exact but for one rounding: the result is the number
/// nearest to the exact value, the even one of two, and on the same side of
/// zero. What is undefined stays undefined.
pub proof fn law_sums_are_rounded_once(a: F32, b: F32)
    ensures
        a.nan() || b.nan() ==> a.add_spec(b).nan() && a.sub_spec(b).nan(),
        a.finite() && b.finite() ==> {
            let sum = a.scaled() + b.scaled();
            let difference = a.scaled() - b.scaled();
            &&& nearest(size(sum), 1, a.add_spec(b).mag())
            &&& sum > 0 ==> !a.add_spec(b).sign()
            &&& sum < 0 ==> a.add_spec(b).sign()
            &&& nearest(size(difference), 1, a.sub_spec(b).mag())
            &&& difference > 0 ==> !a.sub_spec(b).sign()
            &&& difference < 0 ==> a.sub_spec(b).sign()
        },
{
    reveal(F32::add_spec);
    lemma_neg_scaled(b);
    if a.finite() && b.finite() {
        assert(grid(0) == 0);
        lemma_grid_step(0);
        lemma_rounded_is_nearest(size(a.scaled() + b.scaled()), 1);
        lemma_rounded_is_nearest(size(a.scaled() - b.scaled()), 1);
    }
}

/// So are products and quotients; their sign is negative if exactly one factor is.
pub proof fn law_products_are_rounded_once(a: F32, b: F32)
    ensures
        a.nan() || b.nan() ==> a.mul_spec(b).nan() && a.div_spec(b).nan(),
        a.finite() && b.finite() ==> {
            &&& nearest(grid(a.mag()) * grid(b.mag()), unit(), a.mul_spec(b).mag())
            &&& a.mul_spec(b).sign() <==> a.sign() != b.sign()
        },
        a.finite() && b.finite() && b.mag() > 0 ==> {
            &&& nearest(grid(a.mag()) * unit(), grid(b.mag()), a.div_spec(b).mag())
            &&& a.div_spec(b).sign() <==> a.sign() != b.sign()
        },
{
    reveal(F32::mul_spec);
    reveal(F32::div_spec);
    lemma_pow2_pos(149);
    if a.finite() && b.finite() {
        lemma_rounded_is_nearest(grid(a.mag()) * grid(b.mag()), unit());
        if b.mag() > 0 {
            lemma_grid_monotone(0, b.mag());
            lemma_rounded_is_nearest(grid(a.mag()) * unit(), grid(b.mag()));
        }
    }
}

/// An integer is held by the nearest number; reading an integer back drops the
/// fraction or rounds it, halves away from zero, within the range asked for.
pub proof fn law_integers_convert_to_the_nearest(n: int, a: F32, low: int, high: int)
    requires
        low <= 0 <= high,
    ensures
        nearest(size(n) * unit(), 1, F32::of_int(n).mag()),
        F32::of_int(n).sign() <==> n < 0,
        a.nan() ==> a.cast_int(low, high) == 0 && a.round_int(low, high) == 0,
        !a.nan() && low < a.cast_int(low, high) < high ==> {
            let t = a.cast_int(low, high);
            &&& size(t) * unit() <= grid(a.mag()) < (size(t) + 1) * unit()
            &&& t > 0 ==> !a.sign()
            &&& t < 0 ==> a.sign()
        },
        !a.nan() && low < a.round_int(low, high) < high ==> {
            let t = a.round_int(low, high);
            &&& (2 * size(t) - 1) * unit() <= 2 * grid(a.mag()) < (2 * size(t) + 1) * unit()
            &&& t > 0 ==> !a.sign()
            &&& t < 0 ==> a.sign()
        },
{
    reveal(F32::of_int);
    reveal(F32::truncated);
    reveal(F32::nearest_integer);
    let u = unit();
    lemma_pow2_pos(149);
    lemma_rounded_is_nearest(size(n) * u, 1);
    let g = grid(a.mag());
    lemma_grid_step(a.mag());
    vstd::arithmetic::div_mod::lemma_fundamental_div_mod(g, u);
    vstd::arithmetic::div_mod::lemma_mod_bound(g, u);
    vstd::arithmetic::div_mod::lemma_div_pos_is_pos(g, u);
    let q = g / u;
    assert(q * u <= g < (q + 1) * u) by (nonlinear_arith)
        requires
            g == u * q + g % u,
            0 <= g % u < u,
    ;
    let h = 2 * g + u;
    let d = 2 * u;
    vstd::arithmetic::div_mod::lemma_fundamental_div_mod(h, d);
    vstd::arithmetic::div_mod::lemma_mod_bound(h, d);
    vstd::arithmetic::div_mod::lemma_div_pos_is_pos(h, d);
    let k = h / d;
    assert((2 * k - 1) * u <= 2 * g < (2 * k + 1) * u) by (nonlinear_arith)
        requires
            h == d * k + h % d,
            0 <= h % d < d,
            h == 2 * g + u,
            d == 2 * u,
    ;
}

/// Numbers compare as their exact values do, -0 and +0 alike; nothing compares
/// with what is not a number.
pub proof fn law_numbers_compare_by_value(a: F32, b: F32)
    ensures
        a.nan() || b.nan() ==> !a.lt_spec(b) && !a.le_spec(b),
        !a.nan() && !b.nan() ==> (a.lt_spec(b) <==> a.scaled() < b.scaled()) && (a.le_spec(b)
            <==> a.scaled() <= b.scaled()),
        !a.nan() && !b.nan() ==> a.lt_spec(b) || b.le_spec(a),
{
}

/// Infinities absorb what is finite, and what has no value is not a number: the
/// sum of opposite infinities, zero times infinity, zero by zero and infinity by
/// infinity. What is not zero, by zero, is infinite.
pub proof fn law_infinities_absorb(a: F32, b: F32)
    ensures
        a.infinite() && b.finite() ==> a.add_spec(b) == a && b.add_spec(a) == a,
        a.infinite() && b.infinite() ==> (if a.sign() == b.sign() {
            a.add_spec(b) == a
        } else {
            a.add_spec(b).nan()
        }),
        a.infinite() && b.finite() ==> (if b.mag() == 0 {
            a.mul_spec(b).nan() && b.mul_spec(a).nan()
        } else {
            a.mul_spec(b).infinite() && b.mul_spec(a).infinite()
        }),
        a.infinite() && b.infinite() ==> a.mul_spec(b).infinite() && a.div_spec(b).nan(),
        a.infinite() && b.finite() ==> a.div_spec(b).infinite() && b.div_spec(a).mag() == 0,
        a.finite() && b.mag() == 0 ==> (if a.mag() == 0 {
            a.div_spec(b).nan()
        } else {
            a.div_spec(b).infinite()
        }),
{
    reveal(F32::add_spec);
    reveal(F32::mul_spec);
    reveal(F32::div_spec);
}

/// Limiting a number gives the nearer end if it is outside, and the number itself
/// if it is not; the larger of two is one of them, and neither exceeds it.
pub proof fn law_limits_give_the_nearer_end(x: F32, low: F32, high: F32)
    requires
        low.le_spec(high),
    ensures
        x.lt_spec(low) ==> x.clamp_spec(low, high) == low,
        high.lt_spec(x) ==> x.clamp_spec(low, high) == high,
        low.le_spec(x) && x.le_spec(high) ==> x.clamp_spec(low, high) == x,
        x.nan() ==> x.clamp_spec(low, high) == x,
        !x.nan() ==> {
            let m = x.max_spec(high);
            (m == x || m == high) && x.le_spec(m) && high.le_spec(m)
        },
{
}

/// A ratio is the quotient of its two integers.
pub proof fn law_a_ratio_is_a_quotient(n: int, d: int)
    ensures
        F32::of_ratio(n, d) == F32::of_int(n).div_spec(F32::of_int(d)),
{
}

} // verus!
