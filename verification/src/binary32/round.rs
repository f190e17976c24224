//! Rounding an exact quantity to the nearest single, ties to even.

use vstd::prelude::*;
#[allow(unused_imports)]
use vstd::arithmetic::power2::{lemma2_to64, lemma_pow2_adds, lemma_pow2_pos, lemma_pow2_unfold, pow2};

use super::{grid, lemma_grid_linear, lemma_grid_monotone, lemma_grid_step, INF_MAG};

verus! {

/// The magnitude pattern `p` is the nearest to `num / den` (in units of
/// 2^-149), and the even one of two that are equally near. Beyond the largest
/// finite number lies infinity.
pub open spec fn nearest(num: int, den: int, p: int) -> bool {
    &&& 0 <= p <= INF_MAG
    &&& p > 0 ==> {
        let middle = (grid(p - 1) + grid(p)) * den;
        2 * num > middle || (2 * num == middle && p % 2 == 0)
    }
    &&& p < INF_MAG ==> {
        let middle = (grid(p) + grid(p + 1)) * den;
        2 * num < middle || (2 * num == middle && p % 2 == 0)
    }
}

/// The magnitude pattern that `num / den` (in units of 2^-149) rounds to.
pub open spec fn rounded(num: int, den: int) -> int {
    choose|p: int| nearest(num, den, p)
}

/// At most one pattern is the nearest.
pub proof fn lemma_nearest_unique(num: int, den: int, p: int, q: int)
    requires
        den > 0,
        nearest(num, den, p),
        nearest(num, den, q),
    ensures
        p == q,
{
    if p < q {
        lemma_nearest_ordered(num, den, p, q);
    } else if q < p {
        lemma_nearest_ordered(num, den, q, p);
    }
}

proof fn lemma_nearest_ordered(num: int, den: int, p: int, q: int)
    requires
        den > 0,
        nearest(num, den, p),
        p < q,
    ensures
        !nearest(num, den, q),
{
    let below = grid(p) + grid(p + 1);
    let above = grid(q - 1) + grid(q);
    if p + 1 < q {
        lemma_grid_monotone(p, q - 1);
        lemma_grid_monotone(p + 1, q);
        assert(below * den < above * den) by (nonlinear_arith)
            requires
                below < above,
                den > 0,
        ;
    }
}

/// What `rounded` is, once some pattern is known to be the nearest.
pub proof fn lemma_rounded(num: int, den: int, p: int)
    requires
        den > 0,
        nearest(num, den, p),
    ensures
        rounded(num, den) == p,
{
    let r = rounded(num, den);
    assert(nearest(num, den, r));
    lemma_nearest_unique(num, den, p, r);
}

/// Exponent offset of a cell: cell units are 2^-(149 + CELL_BIAS).
pub const CELL_BIAS: u32 = 256;

/// `num / den` lies in the cell `[m, m + 1)` scaled by 2^e, and strictly inside
/// it exactly when `sticky` is set.
pub open spec fn in_cell(num: int, den: int, m: int, e: int, sticky: bool) -> bool {
    let unit = pow2(e as nat) * den;
    let x = num * pow2(CELL_BIAS as nat);
    &&& e >= 0
    &&& m * unit <= x < (m + 1) * unit
    &&& sticky <==> m * unit < x
}

/// Where a quantity in the cell of `m` stands against the point `h` of the same
/// scale.
proof fn lemma_cell_against(num: int, den: int, m: int, e: int, sticky: bool, h: int)
    requires
        den > 0,
        in_cell(num, den, m, e, sticky),
    ensures
        ({
            let x = num * pow2(CELL_BIAS as nat);
            let at = h * (pow2(e as nat) * den);
            &&& m < h ==> x < at
            &&& m > h ==> x > at
            &&& m == h && sticky ==> x > at
            &&& m == h && !sticky ==> x == at
            &&& m >= h ==> x >= at
        }),
{
    let unit = pow2(e as nat) * den;
    lemma_pow2_pos(e as nat);
    assert(unit > 0) by (nonlinear_arith)
        requires
            pow2(e as nat) > 0,
            den > 0,
            unit == pow2(e as nat) * den,
    ;
    if m < h {
        assert((m + 1) * unit <= h * unit) by (nonlinear_arith)
            requires
                m + 1 <= h,
                unit > 0,
        ;
    }
    if m > h {
        assert(m * unit > h * unit) by (nonlinear_arith)
            requires
                m > h,
                unit > 0,
        ;
    }
}

/// Cancels the common scale of a comparison with a middle of two grid points.
proof fn lemma_middle(num: int, den: int, h: int, e: int, low: int, high: int)
    requires
        e >= 0,
        2 * h * pow2(e as nat) == (low + high) * pow2(CELL_BIAS as nat),
    ensures
        ({
            let x = num * pow2(CELL_BIAS as nat);
            let at = h * (pow2(e as nat) * den);
            let middle = (low + high) * den;
            &&& x < at ==> 2 * num < middle
            &&& x == at ==> 2 * num == middle
            &&& x > at ==> 2 * num > middle
        }),
{
    let s = pow2(CELL_BIAS as nat);
    let w = pow2(e as nat);
    let x = num * s;
    let at = h * (w * den);
    let middle = (low + high) * den;
    lemma_pow2_pos(CELL_BIAS as nat);
    assert(2 * at == middle * s) by (nonlinear_arith)
        requires
            at == h * (w * den),
            middle == (low + high) * den,
            2 * h * w == (low + high) * s,
    ;
    assert(x < at ==> 2 * num < middle) by (nonlinear_arith)
        requires
            x == num * s,
            2 * at == middle * s,
            s > 0,
    ;
    assert(x == at ==> 2 * num == middle) by (nonlinear_arith)
        requires
            x == num * s,
            2 * at == middle * s,
            s > 0,
    ;
    assert(x > at ==> 2 * num > middle) by (nonlinear_arith)
        requires
            x == num * s,
            2 * at == middle * s,
            s > 0,
    ;
}

/// Splitting a cell index at `2^r`: `kept` whole grid steps of size 2^base and
/// a remainder. Rounding the remainder to the nearer step, ties to even, gives
/// the nearest pattern.
proof fn lemma_round_split(
    num: int,
    den: int,
    m: int,
    e: int,
    sticky: bool,
    r: int,
    base: int,
    kept: int,
    rem: int,
    up: bool,
)
    requires
        den > 0,
        in_cell(num, den, m, e, sticky),
        r >= 1,
        0 <= base <= 253,
        r + e == base + CELL_BIAS,
        m == kept * pow2(r as nat) + rem,
        0 <= rem < pow2(r as nat),
        0 <= kept < 0x100_0000,
        base == 0 || kept >= 0x80_0000,
        up <==> (2 * rem > pow2(r as nat) || (2 * rem == pow2(r as nat) && (sticky || kept % 2
            == 1))),
    ensures
        nearest(
            num,
            den,
            base * 0x80_0000 + kept + (if up {
                1int
            } else {
                0
            }),
        ),
{
    let wr = pow2(r as nat);
    let half = pow2((r - 1) as nat);
    lemma_pow2_unfold(r as nat);
    lemma_pow2_pos((r - 1) as nat);
    assert(wr == 2 * half);
    let h = kept * wr + half;
    let low = kept * pow2(base as nat);
    let high = (kept + 1) * pow2(base as nat);
    let p = base * 0x80_0000 + kept;
    lemma_grid_linear(base, kept);
    lemma_grid_linear(base, kept + 1);
    assert(grid(p) == low);
    assert(grid(p + 1) == high);
    let s = pow2(CELL_BIAS as nat);
    let we = pow2(e as nat);
    let wb = pow2(base as nat);
    assert(wr * we == wb * s) by {
        lemma_pow2_adds(r as nat, e as nat);
        lemma_pow2_adds(base as nat, CELL_BIAS as nat);
    }
    assert(2 * h * we == (low + high) * s) by (nonlinear_arith)
        requires
            h == kept * wr + half,
            wr == 2 * half,
            low == kept * wb,
            high == (kept + 1) * wb,
            wr * we == wb * s,
    ;
    lemma_cell_against(num, den, m, e, sticky, h);
    lemma_middle(num, den, h, e, low, high);
    let x = num * s;
    let at = h * (we * den);
    assert(p % 2 == kept % 2);
    // bounds by the neighbouring whole steps
    let hl = kept * wr;
    let hh = (kept + 1) * wr;
    assert(hl <= m < hh) by (nonlinear_arith)
        requires
            hl == kept * wr,
            hh == (kept + 1) * wr,
            m == kept * wr + rem,
            0 <= rem < wr,
    ;
    assert(2 * hl * we == (low + low) * s) by (nonlinear_arith)
        requires
            hl == kept * wr,
            low == kept * wb,
            wr * we == wb * s,
    ;
    assert(2 * hh * we == (high + high) * s) by (nonlinear_arith)
        requires
            hh == (kept + 1) * wr,
            high == (kept + 1) * wb,
            wr * we == wb * s,
    ;
    lemma_cell_against(num, den, m, e, sticky, hl);
    lemma_middle(num, den, hl, e, low, low);
    lemma_cell_against(num, den, m, e, sticky, hh);
    lemma_middle(num, den, hh, e, high, high);
    if up {
        lemma_grid_step(p + 1);
        let next = grid(p + 2);
        assert((high + high) * den < (high + next) * den) by (nonlinear_arith)
            requires
                high < next,
                den > 0,
        ;
        assert(2 * num < (high + high) * den);
        assert(nearest(num, den, p + 1));
    } else {
        if p > 0 {
            lemma_grid_step(p - 1);
            let prev = grid(p - 1);
            assert((prev + low) * den < (low + low) * den) by (nonlinear_arith)
                requires
                    prev < low,
                    den > 0,
            ;
            assert(2 * num >= (low + low) * den);
        }
        assert(nearest(num, den, p));
    }
}

/// Rounds the quantity in the cell of `m` to the nearest magnitude pattern.
pub fn round_cell(m: u64, e: u32, sticky: bool, Ghost(num): Ghost<int>, Ghost(den): Ghost<int>) -> (p: u32)
    requires
        den > 0,
        0x100_0000 <= m < 0x8000_0000_0000_0000,
        e < 0x1_0000,
        in_cell(num, den, m as int, e as int, sticky),
    ensures
        nearest(num, den, p as int),
        p == rounded(num, den),
        p <= INF_MAG,
{
    // Step size that leaves 24 significant bits.
    let mut w: u64 = 2;
    let mut s: u32 = 1;
    proof {
        lemma2_to64();
    }
    while m / w >= 0x100_0000
        invariant
            1 <= s <= 39,
            w == pow2(s as nat),
            0 < w <= 0x80_0000_0000,
            0x100_0000 <= m < 0x8000_0000_0000_0000,
            m / w >= 0x80_0000,
        decreases 40 - s,
    {
        proof {
            lemma_pow2_unfold((s + 1) as nat);
            lemma2_to64();
            if s == 39 {
                assert(false) by {
                    lemma_pow2_adds(32, 7);
                    assert(w == 0x80_0000_0000);
                    assert(m >= 0x100_0000 * 0x80_0000_0000) by (nonlinear_arith)
                        requires
                            m / w >= 0x100_0000,
                            w == 0x80_0000_0000,
                    ;
                }
            }
            if s + 1 <= 39 {
                lemma_pow2_adds(32, 7);
                if s + 1 < 39 {
                    vstd::arithmetic::power2::lemma_pow2_strictly_increases((s + 1) as nat, 39);
                }
            }
            assert(m / ((w * 2) as u64) >= 0x80_0000) by (nonlinear_arith)
                requires
                    m / w >= 0x100_0000,
                    0 < w <= 0x80_0000_0000,
            ;
        }
        w = w * 2;
        s = s + 1;
    }
    let mut r: u32 = s;
    let mut base: u32 = 0;
    if e + s >= CELL_BIAS {
        base = e + s - CELL_BIAS;
        if base >= 254 {
            proof {
                lemma_overflow(num, den, m as int, e as int, sticky, s as int, w as int);
                lemma_rounded(num, den, INF_MAG as int);
            }
            return INF_MAG;
        }
    } else {
        // Below the normal range the step is one grid unit.
        r = CELL_BIAS - e;
        if r >= 64 {
            proof {
                lemma_underflow(num, den, m as int, e as int, sticky);
                lemma_rounded(num, den, 0);
            }
            return 0;
        }
        let mut k: u32 = s;
        while k < r
            invariant
                s <= k <= r < 64,
                w == pow2(k as nat),
                w > 0,
                m / w < 0x100_0000,
            decreases r - k,
        {
            proof {
                lemma_pow2_unfold((k + 1) as nat);
                lemma2_to64();
                if k + 1 < 64 {
                    vstd::arithmetic::power2::lemma_pow2_strictly_increases((k + 1) as nat, 64);
                }
                assert(m / ((w * 2) as u64) <= m / w) by (nonlinear_arith)
                    requires
                        0 < w,
                        w * 2 < 0x1_0000_0000_0000_0000,
                ;
            }
            w = w * 2;
            k = k + 1;
        }
    }
    let kept: u64 = m / w;
    let rem: u64 = m % w;
    let half: u64 = w / 2;
    proof {
        lemma_pow2_unfold(r as nat);
        assert(m == kept * w + rem) by {
            vstd::arithmetic::div_mod::lemma_fundamental_div_mod(m as int, w as int);
            assert(w * (m as int / w as int) == kept * w) by (nonlinear_arith)
                requires
                    kept == m as int / w as int,
            ;
        }
    }
    let up: bool = rem > half || (rem == half && (sticky || kept % 2 == 1));
    proof {
        lemma_round_split(
            num,
            den,
            m as int,
            e as int,
            sticky,
            r as int,
            base as int,
            kept as int,
            rem as int,
            up,
        );
    }
    let mut p: u32 = base * 0x80_0000 + kept as u32;
    if up {
        p = p + 1;
    }
    proof {
        lemma_rounded(num, den, p as int);
    }
    p
}

/// A quantity of at least 2^277 units rounds to infinity.
proof fn lemma_overflow(num: int, den: int, m: int, e: int, sticky: bool, s: int, w: int)
    requires
        den > 0,
        in_cell(num, den, m, e, sticky),
        s >= 1,
        w == pow2(s as nat),
        m / w >= 0x80_0000,
        e + s >= CELL_BIAS + 254,
    ensures
        nearest(num, den, INF_MAG as int),
{
    let top = INF_MAG as int;
    lemma_grid_linear(254, 0x80_0000);
    assert(254 * 0x80_0000 + 0x80_0000 == top);
    let g = grid(top);
    lemma_grid_step(top - 1);
    let prev = grid(top - 1);
    // the cell's left end is at least g
    let h = 0x80_0000 * pow2((CELL_BIAS + 254) as nat);
    let we = pow2(e as nat);
    lemma_pow2_pos(s as nat);
    lemma_pow2_pos(e as nat);
    assert(m >= 0x80_0000 * w) by {
        vstd::arithmetic::div_mod::lemma_fundamental_div_mod(m, w);
        assert(w * (m / w) >= w * 0x80_0000) by (nonlinear_arith)
            requires
                m / w >= 0x80_0000,
                w > 0,
        ;
    }
    lemma_pow2_adds(s as nat, e as nat);
    let rest = (e + s - CELL_BIAS - 254) as nat;
    lemma_pow2_adds((CELL_BIAS + 254) as nat, rest);
    lemma_pow2_pos(rest);
    lemma_pow2_pos((CELL_BIAS + 254) as nat);
    lemma_pow2_adds(254, CELL_BIAS as nat);
    let sc = pow2(CELL_BIAS as nat);
    lemma_pow2_pos(CELL_BIAS as nat);
    let big = pow2((CELL_BIAS + 254) as nat);
    assert(w * we == big * pow2(rest));
    assert(m * we >= 0x80_0000 * (w * we)) by (nonlinear_arith)
        requires
            m >= 0x80_0000 * w,
            we > 0,
    ;
    assert(w * we >= big) by (nonlinear_arith)
        requires
            w * we == big * pow2(rest),
            pow2(rest) >= 1,
            big >= 0,
    ;
    assert(g * sc == 0x80_0000 * big) by (nonlinear_arith)
        requires
            g == 0x80_0000 * pow2(254),
            big == pow2(254) * sc,
    ;
    assert(m * we >= g * sc);
    let unit = we * den;
    assert(m * unit >= g * sc * den) by (nonlinear_arith)
        requires
            unit == we * den,
            m * we >= g * sc,
            den > 0,
    ;
    assert(num * sc >= g * sc * den);
    assert(num >= g * den) by (nonlinear_arith)
        requires
            num * sc >= g * sc * den,
            sc > 0,
    ;
    assert(2 * (g * den) > (prev + g) * den) by (nonlinear_arith)
        requires
            prev < g,
            den > 0,
    ;
}

/// A quantity below half a unit rounds to zero.
proof fn lemma_underflow(num: int, den: int, m: int, e: int, sticky: bool)
    requires
        den > 0,
        in_cell(num, den, m, e, sticky),
        m < 0x8000_0000_0000_0000,
        e <= CELL_BIAS - 64,
    ensures
        nearest(num, den, 0),
{
    lemma2_to64();
    let top: int = 0x8000_0000_0000_0000;
    lemma_pow2_unfold(64);
    assert(pow2(63) == top);
    lemma_pow2_adds(63, e as nat);
    lemma_pow2_unfold(CELL_BIAS as nat);
    let we = pow2(e as nat);
    let sc = pow2(CELL_BIAS as nat);
    lemma_pow2_pos(CELL_BIAS as nat);
    lemma_pow2_pos(e as nat);
    if e + 63 < CELL_BIAS - 1 {
        vstd::arithmetic::power2::lemma_pow2_strictly_increases(
            (e + 63) as nat,
            (CELL_BIAS - 1) as nat,
        );
    }
    assert(2 * (top * we) <= sc);
    lemma_cell_against(num, den, m, e, sticky, top);
    assert(2 * num < den) by (nonlinear_arith)
        requires
            num * sc < top * (we * den),
            2 * (top * we) <= sc,
            den > 0,
            sc > 0,
    ;
    assert(grid(0) == 0 && grid(1) == 1);
}

} // verus!
