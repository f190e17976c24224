//! Square root of singles, rounded to the nearest.

use vstd::prelude::*;
#[allow(unused_imports)]
use vstd::arithmetic::power2::{lemma2_to64, lemma_pow2_adds, lemma_pow2_pos, lemma_pow2_unfold, pow2};

use super::arith::unpack;
#[allow(unused_imports)]
use super::round::{nearest, CELL_BIAS};
#[allow(unused_imports)]
use super::{grid, lemma_grid_linear, lemma_grid_monotone, F32, INF_MAG, NAN_BITS};

verus! {

/// The magnitude pattern `p` is the nearest to the square root of `n` (both in
/// units of 2^-149), and the even one of two that are equally near.
pub open spec fn nearest_root(n: int, p: int) -> bool {
    &&& 0 <= p <= INF_MAG
    &&& p > 0 ==> {
        let twice = grid(p - 1) + grid(p);
        4 * n > twice * twice || (4 * n == twice * twice && p % 2 == 0)
    }
    &&& p < INF_MAG ==> {
        let twice = grid(p) + grid(p + 1);
        4 * n < twice * twice || (4 * n == twice * twice && p % 2 == 0)
    }
}

/// The magnitude pattern that the square root of `n` rounds to.
pub open spec fn root_rounded(n: int) -> int {
    choose|p: int| nearest_root(n, p)
}

/// At most one pattern is the nearest.
proof fn lemma_nearest_root_unique(n: int, p: int, q: int)
    requires
        nearest_root(n, p),
        nearest_root(n, q),
    ensures
        p == q,
{
    if p < q {
        lemma_nearest_root_ordered(n, p, q);
    } else if q < p {
        lemma_nearest_root_ordered(n, q, p);
    }
}

proof fn lemma_nearest_root_ordered(n: int, p: int, q: int)
    requires
        nearest_root(n, p),
        p < q,
    ensures
        !nearest_root(n, q),
{
    let below = grid(p) + grid(p + 1);
    let above = grid(q - 1) + grid(q);
    lemma_grid_monotone(p, p + 1);
    if p + 1 < q {
        lemma_grid_monotone(p, q - 1);
        lemma_grid_monotone(p + 1, q);
        assert(below * below < above * above) by (nonlinear_arith)
            requires
                0 <= below < above,
        ;
    }
}

impl F32 {
    /// The square root: undefined for negative numbers; each zero and positive
    /// infinity is its own root.
    #[verifier::opaque]
    pub open spec fn sqrt_spec(self) -> F32 {
        if self.nan() {
            F32::not_a_number()
        } else if self.mag() == 0 {
            self
        } else if self.sign() {
            F32::not_a_number()
        } else if self.infinite() {
            self
        } else {
            F32::pack(false, root_rounded(grid(self.mag()) * pow2(149)))
        }
    }

    pub fn sqrt(self) -> (r: F32)
        ensures
            r == self.sqrt_spec(),
    {
        proof {
            reveal(F32::sqrt_spec);
        }
        if self.is_nan() {
            return F32 { bits: NAN_BITS };
        }
        if self.magnitude() == 0 {
            return self;
        }
        if self.is_negative() {
            return F32 { bits: NAN_BITS };
        }
        if self.is_infinite() {
            return self;
        }
        F32::from_parts(false, root_magnitude(self.magnitude()))
    }
}

/// The integer square root.
fn integer_root(s: u64) -> (r: u64)
    requires
        s < 0x4000_0000_0000_0000,
    ensures
        r * r <= s < (r + 1) * (r + 1),
        r < 0x8000_0000,
{
    let mut r: u64 = 0;
    let mut b: u64 = 0x8000_0000;
    proof {
        assert((0 + 0x8000_0000) * (0 + 0x8000_0000) == 0x4000_0000_0000_0000) by (nonlinear_arith);
        lemma2_to64();
        assert(b == pow2(31));
    }
    while b > 1
        invariant
            1 <= b <= 0x8000_0000,
            b == 1 || b % 2 == 0,
            exists|k: nat| b == #[trigger] pow2(k),
            r + b <= 0x8000_0000,
            r * r <= s < (r + b) * (r + b),
            s < 0x4000_0000_0000_0000,
        decreases b,
    {
        let ghost k = choose|k: nat| b == #[trigger] pow2(k);
        let half: u64 = b / 2;
        proof {
            lemma2_to64();
            if k == 0 {
                assert(false);
            }
            lemma_pow2_unfold(k);
            assert(half == pow2((k - 1) as nat));
            if k >= 2 {
                lemma_pow2_unfold((k - 1) as nat);
            } else {
                assert(k == 1);
            }
            assert((r + half) * (r + half) <= 0x4000_0000_0000_0000) by (nonlinear_arith)
                requires
                    r + half <= 0x8000_0000,
            ;
        }
        if (r + half) * (r + half) <= s {
            r = r + half;
        }
        b = half;
    }
    r
}

/// The root of a positive finite magnitude.
fn root_magnitude(mag: u32) -> (p: u32)
    requires
        0 < mag < INF_MAG,
    ensures
        p == root_rounded(grid(mag as int) * pow2(149)),
        p <= INF_MAG,
{
    let (sa, ea) = unpack(mag);
    let ghost g = grid(mag as int);
    // Bring the significand to 24 bits.
    let mut s: u64 = sa;
    let mut k: u32 = 0;
    proof {
        lemma2_to64();
        assert(sa * pow2(0) == sa) by (nonlinear_arith)
            requires
                pow2(0) == 1,
        ;
    }
    while s < 0x80_0000
        invariant
            0 < sa,
            s == sa * pow2(k as nat),
            k <= 23,
            0 < s < 0x100_0000,
        decreases 0x100_0000 - s,
    {
        proof {
            lemma_pow2_unfold((k + 1) as nat);
            assert(s * 2 == sa * pow2((k + 1) as nat)) by (nonlinear_arith)
                requires
                    s == sa * pow2(k as nat),
                    pow2((k + 1) as nat) == 2 * pow2(k as nat),
            ;
            if k == 23 {
                lemma2_to64();
                assert(s >= 0x80_0000) by (nonlinear_arith)
                    requires
                        s == sa * pow2(k as nat),
                        pow2(k as nat) == 0x80_0000,
                        sa >= 1,
                ;
            }
        }
        s = s * 2;
        k = k + 1;
    }
    // grid * 2^149 == s * 2^x; an even exponent has a whole root.
    let x: u32 = ea + 149 - k;
    proof {
        lemma_shifted_scale(sa as int, s as int, ea as int, k as int);
    }
    let wide: u64 = if x % 2 == 0 {
        s * 0x10_0000_0000
    } else {
        s * 0x20_0000_0000
    };
    let j: u32 = if x % 2 == 0 {
        x / 2 - 18
    } else {
        (x - 1) / 2 - 18
    };
    let ghost n = g * pow2(149);
    proof {
        lemma_wide_scale(s as int, x as int);
    }
    let r: u64 = integer_root(wide);
    proof {
        assert(r >= 0x2000_0000) by (nonlinear_arith)
            requires
                (r + 1) * (r + 1) > 0x80_0000 * 0x10_0000_0000,
                r >= 0,
        ;
        assert(r * r <= 0x8000_0000 * 0x8000_0000) by (nonlinear_arith)
            requires
                0 <= r < 0x8000_0000,
        ;
    }
    let exact: bool = r * r == wide;
    let e: u32 = j + CELL_BIAS;
    let ghost wj = pow2(j as nat) as int;
    let ghost num = if exact {
        r * wj
    } else {
        (2 * r + 1) * wj
    };
    let ghost den: int = if exact {
        1
    } else {
        2
    };
    proof {
        lemma_pow2_adds(j as nat, CELL_BIAS as nat);
        lemma_pow2_pos(j as nat);
        lemma_pow2_pos(CELL_BIAS as nat);
        let c = pow2(CELL_BIAS as nat) as int;
        let unit = pow2(e as nat) * den;
        let y = wj * c;
        assert(y > 0) by (nonlinear_arith)
            requires
                y == wj * c,
                wj > 0,
                c > 0,
        ;
        if exact {
            assert(r * unit == num * c) by (nonlinear_arith)
                requires
                    unit == (wj * c) * 1,
                    num == r * wj,
            ;
            assert((r + 1) * unit > r * unit) by (nonlinear_arith)
                requires
                    unit == y * 1,
                    y > 0,
            ;
        } else {
            assert(num * c == (2 * r + 1) * y) by (nonlinear_arith)
                requires
                    num == (2 * r + 1) * wj,
                    y == wj * c,
            ;
            assert(r * unit == (2 * r) * y) by (nonlinear_arith)
                requires
                    unit == y * 2,
            ;
            assert((r + 1) * unit == (2 * r + 2) * y) by (nonlinear_arith)
                requires
                    unit == y * 2,
            ;
            assert((2 * r) * y < (2 * r + 1) * y < (2 * r + 2) * y) by (nonlinear_arith)
                requires
                    y > 0,
            ;
        }
    }
    let p: u32 = super::round::round_cell(r, e, !exact, Ghost(num), Ghost(den));
    proof {
        lemma_root_nearest(n, wide as int, r as int, j as int, p as int);
        let q = root_rounded(n);
        assert(nearest_root(n, q));
        lemma_nearest_root_unique(n, p as int, q);
    }
    p
}

proof fn lemma_shifted_scale(sa: int, s: int, ea: int, k: int)
    requires
        0 <= ea,
        0 <= k <= 23,
        s == sa * pow2(k as nat),
    ensures
        (sa * pow2(ea as nat)) * pow2(149) == s * pow2((ea + 149 - k) as nat),
{
    lemma_pow2_adds(ea as nat, 149);
    lemma_pow2_adds(k as nat, (ea + 149 - k) as nat);
    let w = pow2((ea + 149 - k) as nat) as int;
    assert((sa * pow2(ea as nat)) * pow2(149) == s * w) by (nonlinear_arith)
        requires
            s == sa * pow2(k as nat),
            pow2(ea as nat) * pow2(149) == pow2(k as nat) * w,
    ;
}

proof fn lemma_wide_scale(s: int, x: int)
    requires
        x >= 100,
    ensures
        ({
            let wide = if x % 2 == 0 { s * 0x10_0000_0000 } else { s * 0x20_0000_0000 };
            let j = if x % 2 == 0 { x / 2 - 18 } else { (x - 1) / 2 - 18 };
            s * pow2(x as nat) == wide * (pow2(j as nat) * pow2(j as nat))
        }),
{
    lemma2_to64();
    lemma_pow2_adds(32, 4);
    lemma_pow2_adds(32, 5);
    let j = if x % 2 == 0 {
        x / 2 - 18
    } else {
        (x - 1) / 2 - 18
    };
    lemma_pow2_adds(j as nat, j as nat);
    let sq = pow2((2 * j) as nat) as int;
    assert(pow2(j as nat) * pow2(j as nat) == sq);
    if x % 2 == 0 {
        lemma_pow2_adds(36, (2 * j) as nat);
        assert(s * pow2(x as nat) == (s * 0x10_0000_0000) * sq) by (nonlinear_arith)
            requires
                pow2(x as nat) == 0x10_0000_0000 * sq,
        ;
    } else {
        lemma_pow2_adds(37, (2 * j) as nat);
        assert(s * pow2(x as nat) == (s * 0x20_0000_0000) * sq) by (nonlinear_arith)
            requires
                pow2(x as nat) == 0x20_0000_0000 * sq,
        ;
    }
}

/// Sums of neighbouring grid points near a value of at least 2^(j + 29) are
/// multiples of 2^(j + 1).
proof fn lemma_neighbour_sum(p: int, j: int)
    requires
        0 <= p <= INF_MAG,
        j >= 0,
        grid(p + 1) >= 0x1000_0000 * pow2(j as nat),
    ensures
        p > 0,
        exists|c: int| grid(p - 1) + grid(p) == #[trigger] (c * (2 * pow2(j as nat))),
        exists|c: int| grid(p) + grid(p + 1) == #[trigger] (c * (2 * pow2(j as nat))),
{
    lemma2_to64();
    lemma_pow2_pos(j as nat);
    let wj = pow2(j as nat) as int;
    let base = if p >= 0x80_0000 {
        p / 0x80_0000 - 1
    } else {
        0
    };
    let q = p - base * 0x80_0000;
    assert(0 <= q < 0x100_0000);
    lemma_grid_linear(base, q);
    lemma_grid_linear(base, q + 1);
    let wb = pow2(base as nat) as int;
    lemma_pow2_pos(base as nat);
    // the binade is high enough
    assert(base >= j + 2) by {
        if base <= j + 1 {
            lemma_pow2_unfold((j + 1) as nat);
            if base < j + 1 {
                vstd::arithmetic::power2::lemma_pow2_strictly_increases(base as nat, (j + 1) as nat);
            }
            assert((q + 1) * wb < 0x1000_0000 * wj) by (nonlinear_arith)
                requires
                    0 <= q + 1 <= 0x100_0000,
                    0 < wb <= 2 * wj,
            ;
        }
    }
    let t = pow2((base - j - 2) as nat) as int;
    lemma_pow2_adds((base - j - 2) as nat, (j + 1) as nat);
    lemma_pow2_unfold((j + 1) as nat);
    lemma_pow2_unfold(base as nat);
    let wl = pow2((base - 1) as nat) as int;
    assert(wl == t * (2 * wj));
    assert(wb == 2 * wl);
    let below = grid(p - 1);
    let cb = if q > 0x80_0000 {
        2 * (q - 1)
    } else {
        0xff_ffff
    };
    if q > 0x80_0000 {
        lemma_grid_linear(base, q - 1);
        assert(below == cb * wl) by (nonlinear_arith)
            requires
                below == (q - 1) * wb,
                wb == 2 * wl,
                cb == 2 * (q - 1),
        ;
    } else {
        assert(q == 0x80_0000);
        lemma_grid_linear(base - 1, 0xff_ffff);
        assert(p - 1 == (base - 1) * 0x80_0000 + 0xff_ffff);
    }
    let c1 = (cb + 2 * q) * t;
    assert(below + grid(p) == c1 * (2 * wj)) by (nonlinear_arith)
        requires
            below == cb * wl,
            grid(p) == q * wb,
            wb == 2 * wl,
            wl == t * (2 * wj),
            c1 == (cb + 2 * q) * t,
    ;
    let c2 = (4 * q + 2) * t;
    assert(grid(p) + grid(p + 1) == c2 * (2 * wj)) by (nonlinear_arith)
        requires
            grid(p) == q * wb,
            grid(p + 1) == (q + 1) * wb,
            wb == 2 * wl,
            wl == t * (2 * wj),
            c2 == (4 * q + 2) * t,
    ;
}

/// Squaring keeps the order of what is not negative.
proof fn lemma_square_order(x: int, y: int)
    requires
        0 <= x,
        0 <= y,
    ensures
        x < y <==> x * x < y * y,
        x <= y <==> x * x <= y * y,
        x == y <==> x * x == y * y,
{
    if x < y {
        assert(x * x < y * y) by (nonlinear_arith)
            requires
                0 <= x < y,
        ;
    } else if y < x {
        assert(y * y < x * x) by (nonlinear_arith)
            requires
                0 <= y < x,
        ;
    }
}

/// An even multiple on one side of an odd one is on that side of its neighbour.
proof fn lemma_even_multiple(c: int, r: int, w: int)
    requires
        w > 0,
    ensures
        c * (2 * w) >= (2 * r + 1) * w ==> c * (2 * w) >= (2 * r + 2) * w,
        c * (2 * w) <= (2 * r + 1) * w ==> c * (2 * w) <= 2 * r * w,
{
    let even = 2 * w;
    assert((2 * r + 1) * w == r * even + w && (2 * r + 2) * w == (r + 1) * even && 2 * r * w == r
        * even && (r + 1) * even == r * even + even) by (nonlinear_arith)
        requires
            even == 2 * w,
    ;
    if c <= r {
        assert(c * even <= r * even) by (nonlinear_arith)
            requires
                c <= r,
                even > 0,
        ;
    } else {
        assert(c * even >= (r + 1) * even) by (nonlinear_arith)
            requires
                c >= r + 1,
                even > 0,
        ;
    }
}

/// What is nearest to the root's cell is nearest to the root.
proof fn lemma_root_nearest(n: int, wide: int, r: int, j: int, p: int)
    requires
        0 <= j <= 200,
        r >= 0x2000_0000,
        r * r <= wide < (r + 1) * (r + 1),
        n == wide * (pow2(j as nat) * pow2(j as nat)),
        r * r == wide ==> nearest(r * pow2(j as nat), 1, p),
        r * r != wide ==> nearest((2 * r + 1) * pow2(j as nat), 2, p),
    ensures
        nearest_root(n, p),
{
    let w = pow2(j as nat) as int;
    lemma_pow2_pos(j as nat);
    if r * r == wide {
        let x = r * w;
        assert(n == x * x) by (nonlinear_arith)
            requires
                n == (r * r) * (w * w),
                x == r * w,
        ;
        assert(x >= 0) by (nonlinear_arith)
            requires
                x == r * w,
                r >= 0,
                w >= 0,
        ;
        assert(4 * n == (2 * x) * (2 * x)) by (nonlinear_arith)
            requires
                n == x * x,
        ;
        if p > 0 {
            lemma_grid_monotone(p - 1, p);
            lemma_square_order(grid(p - 1) + grid(p), 2 * x);
        }
        if p < INF_MAG {
            lemma_grid_monotone(p, p + 1);
            lemma_square_order(2 * x, grid(p) + grid(p + 1));
        }
    } else {
        let x = (2 * r + 1) * w;
        lemma_grid_monotone(p, p + 1);
        if p < INF_MAG {
            assert(grid(p + 1) >= 0x1000_0000 * w) by (nonlinear_arith)
                requires
                    2 * x <= (grid(p) + grid(p + 1)) * 2,
                    grid(p) < grid(p + 1),
                    x == (2 * r + 1) * w,
                    r >= 0x2000_0000,
                    w > 0,
            ;
        } else {
            lemma_grid_linear(254, 0x80_0000);
            lemma_pow2_adds(j as nat, (254 - j) as nat);
            lemma_pow2_adds(8, (246 - j) as nat);
            lemma_pow2_pos((246 - j) as nat);
            lemma2_to64();
            let z = pow2((246 - j) as nat) as int;
            assert(grid(p) >= 0x1000_0000 * w) by (nonlinear_arith)
                requires
                    grid(p) == 0x80_0000 * pow2(254),
                    pow2(254) == w * (256 * z),
                    z >= 1,
                    w > 0,
            ;
        }
        lemma_neighbour_sum(p, j);
        let lo = 2 * r * w;
        let hi = (2 * r + 2) * w;
        assert(lo * lo < 4 * n) by (nonlinear_arith)
            requires
                lo == 2 * r * w,
                n == wide * (w * w),
                r * r < wide,
                w > 0,
        ;
        assert(4 * n < hi * hi) by (nonlinear_arith)
            requires
                hi == (2 * r + 2) * w,
                n == wide * (w * w),
                wide < (r + 1) * (r + 1),
                w > 0,
        ;
        let c1 = choose|c: int| grid(p - 1) + grid(p) == #[trigger] (c * (2 * w));
        let s1 = grid(p - 1) + grid(p);
        lemma_grid_monotone(p - 1, p);
        assert(s1 <= x);
        lemma_even_multiple(c1, r, w);
        assert(s1 <= lo);
        lemma_square_order(s1, lo);
        if p < INF_MAG {
            let c2 = choose|c: int| grid(p) + grid(p + 1) == #[trigger] (c * (2 * w));
            let s2 = grid(p) + grid(p + 1);
            assert(s2 >= x);
            lemma_even_multiple(c2, r, w);
            assert(s2 >= hi);
            assert(hi >= 0) by (nonlinear_arith)
                requires
                    hi == (2 * r + 2) * w,
                    r >= 0,
                    w > 0,
            ;
            lemma_square_order(hi, s2);
        }
    }
}

/// Searching upward from `p` ends at the nearest root.
proof fn lemma_root_from(n: int, p: int) -> (q: int)
    requires
        0 <= p <= INF_MAG,
        p > 0 ==> {
            let twice = grid(p - 1) + grid(p);
            4 * n > twice * twice || (4 * n == twice * twice && p % 2 == 0)
        },
    ensures
        nearest_root(n, q),
    decreases INF_MAG - p,
{
    if p == INF_MAG {
        p
    } else {
        let twice = grid(p) + grid(p + 1);
        if 4 * n < twice * twice || (4 * n == twice * twice && p % 2 == 0) {
            p
        } else {
            lemma_root_from(n, p + 1)
        }
    }
}

/// A root is the nearest number too: twice it, give or take half a step to either
/// neighbour, squared, encloses four times the number.
pub proof fn law_roots_are_rounded_once(a: F32)
    requires
        a.finite(),
        !a.sign(),
        a.mag() > 0,
        a.sqrt_spec().mag() < INF_MAG,
    ensures
        ({
            let r = a.sqrt_spec();
            let n = grid(a.mag()) * pow2(149);
            let below = grid(r.mag() - 1) + grid(r.mag());
            let above = grid(r.mag()) + grid(r.mag() + 1);
            &&& !r.sign()
            &&& r.mag() > 0 ==> below * below <= 4 * n
            &&& 4 * n <= above * above
        }),
{
    reveal(F32::sqrt_spec);
    let n = grid(a.mag()) * pow2(149);
    let q = lemma_root_from(n, 0);
    assert(nearest_root(n, root_rounded(n)));
}

/// Zero and infinity are their own roots, and a negative number has none.
pub proof fn law_the_ends_are_their_own_roots(a: F32)
    ensures
        a.mag() == 0 ==> a.sqrt_spec() == a,
        a.infinite() && !a.sign() ==> a.sqrt_spec() == a,
        a.nan() || (a.sign() && a.mag() > 0) ==> a.sqrt_spec().nan(),
{
    reveal(F32::sqrt_spec);
}

} // verus!
