//! The meter bar: the live mic level painted against the static calibration
//! markers (noise floor, quiet point, threshold, ceiling). One horizontal bar,
//! no waveform, no animation.

use vstd::prelude::*;

#[allow(unused_imports)]
use vstd::arithmetic::power2::pow2;

#[allow(unused_imports)]
use crate::binary32::order::{
    lemma_add_order, lemma_div_defined, lemma_div_monotone, lemma_int_ratio, lemma_mul_defined,
    lemma_of_int_exact, lemma_of_int_monotone, lemma_of_int_zero, lemma_rounded_is_nearest,
    lemma_sub_order, lemma_zero_absorbs, unit,
};
#[allow(unused_imports)]
use crate::binary32::{grid, lemma_grid_monotone, lemma_grid_step, lemma_scaled_order, F32};
#[allow(unused_imports)]
use crate::ui::theme::{
    faint, opaque, solid, translucent, Color, Ink, GREEN, RED, SURFACE, TEXT, TEXT_MUTED, YELLOW,
};

verus! {

/// A position, from the top left corner.
#[derive(Debug, Clone, Copy, PartialEq, Eq, Structural)]
pub struct Point {
    pub x: F32,
    pub y: F32,
}

#[derive(Debug, Clone, Copy, PartialEq, Eq, Structural)]
pub struct Size {
    pub width: F32,
    pub height: F32,
}

/// One thing to draw. Later shapes lie over earlier ones.
#[derive(Debug, Clone, Copy, PartialEq, Eq, Structural)]
pub enum Shape {
    Rectangle { at: Point, size: Size, ink: Ink },
    /// All four corners rounded.
    Rounded { at: Point, size: Size, radius: F32, ink: Ink },
    /// The two left corners rounded.
    RoundedLeft { at: Point, size: Size, radius: F32, ink: Ink },
    Line { from: Point, to: Point, width: F32, ink: Ink },
}

/// Where a level stands on the bar: -70 dB at 0, 0 dBFS at 1, the rest at the
/// nearer end.
pub open spec fn norm_spec(db: F32) -> F32 {
    db.add_spec(F32::of_int(70)).div_spec(F32::of_int(70)).clamp_spec(
        F32::of_int(0),
        F32::of_int(1),
    )
}

/// Map dBFS to 0..=1 across the bar. -70 dB at the left edge, 0 dBFS right.
pub fn norm(db: F32) -> (r: F32)
    ensures
        r == norm_spec(db),
{
    let seventy: F32 = F32::from_i32(70);
    proof {
        lemma_zero_is_least(1);
    }
    db.add(seventy).div(seventy).clamp(F32::from_i32(0), F32::from_i32(1))
}

/// Zero is at most any count.
pub proof fn lemma_zero_is_least(n: int)
    requires
        0 <= n <= 0x100_0000,
    ensures
        F32::of_int(0).le_spec(F32::of_int(n)),
{
    lemma_of_int_exact(0);
    lemma_of_int_exact(n);
    vstd::arithmetic::power2::lemma_pow2_pos(149);
    assert(0 * crate::binary32::order::unit() <= n * crate::binary32::order::unit())
        by (nonlinear_arith)
        requires
            0 <= n,
            crate::binary32::order::unit() > 0,
    ;
}

/// Level fill color: red at/over the threshold, yellow within 3 dB below it,
/// green further under, and green while there is no threshold.
pub open spec fn color_of(level_db: F32, threshold_db: F32) -> Color {
    if !threshold_db.finite() {
        GREEN
    } else if threshold_db.le_spec(level_db) {
        RED
    } else if threshold_db.sub_spec(F32::of_int(3)).le_spec(level_db) {
        YELLOW
    } else {
        GREEN
    }
}

/// Level fill color. A non-finite `threshold_db` (an uncalibrated device
/// before its first calm voiced frame) is treated as "no threshold yet".
pub fn level_color(level_db: F32, threshold_db: F32) -> (r: Color)
    ensures
        r == color_of(level_db, threshold_db),
{
    if !threshold_db.is_finite() {
        return GREEN;
    }
    if threshold_db.le(level_db) {
        RED
    } else if threshold_db.sub(F32::from_i32(3)).le(level_db) {
        YELLOW
    } else {
        GREEN
    }
}

/// The nearest whole dB; zero for a reading that is not finite.
pub open spec fn whole_db(db: F32) -> int {
    if db.finite() {
        db.round_int(i32::MIN as int, i32::MAX as int)
    } else {
        0
    }
}

/// Rounds a dB reading to the nearest whole dB for a cache key. NaN and the
/// infinities give zero, so a not-yet-finite threshold rounds harmlessly.
pub fn round_db(db: F32) -> (r: i32)
    ensures
        r == whole_db(db),
{
    if db.is_finite() {
        db.round_to_i32()
    } else {
        0
    }
}

/// The nearest whole dB as it is drawn: an infinite reading stays at its end of
/// the scale.
pub open spec fn drawn_db(db: F32) -> int {
    db.round_int(i32::MIN as int, i32::MAX as int)
}

fn round_to_draw(db: F32) -> (r: i32)
    ensures
        r == drawn_db(db),
{
    db.round_to_i32()
}

pub open spec fn whole_db_of(db: Option<F32>) -> Option<i32> {
    match db {
        Some(db) => Some(whole_db(db) as i32),
        None => None,
    }
}

pub fn round_db_of(db: Option<F32>) -> (r: Option<i32>)
    ensures
        r == whole_db_of(db),
{
    match db {
        Some(db) => Some(round_db(db)),
        None => None,
    }
}

/// Everything the meter draws: the live level/threshold/peak snapshot plus
/// the static markers from the device's calibration.
#[derive(Debug, Clone, Copy, PartialEq, Eq, Structural)]
pub struct Meter {
    pub level_db: F32,
    pub threshold_db: F32,
    pub peak_db: F32,
    pub noise_floor_db: F32,
    pub quiet_db: Option<F32>,
    pub ceiling_db: Option<F32>,
    /// false = the ceiling is an estimate derived from the baseline margin
    /// (drawn dashed); true = a confirmed calibration point (drawn solid).
    pub ceiling_confirmed: bool,
}

/// Rounded-to-whole-dB snapshot of every input the meter draws, used only to
/// decide whether the geometry cache needs clearing: sub-dB jitter on the live
/// level doesn't force a redraw every single tick.
#[derive(Debug, Clone, Copy, PartialEq, Eq, Structural)]
pub struct DrawKey {
    pub level_db: i32,
    pub threshold_db: i32,
    pub peak_db: i32,
    pub noise_floor_db: i32,
    pub quiet_db: Option<i32>,
    pub ceiling_db: Option<i32>,
    pub ceiling_confirmed: bool,
}

/// Width of a tick.
pub const TICK_W: i32 = 2;

/// Where a tick for `db` begins on a bar of the given width: never past the
/// right edge.
pub open spec fn tick_x(db: F32, bar_width: F32) -> F32 {
    norm_spec(db).mul_spec(bar_width).clamp_spec(
        F32::of_int(0),
        bar_width.sub_spec(F32::of_int(TICK_W as int)).max_spec(F32::of_int(0)),
    )
}

/// A vertical tick at `db`.
pub open spec fn tick(db: F32, y: F32, height: F32, bar_width: F32, ink: Ink) -> Shape {
    Shape::Rectangle {
        at: Point { x: tick_x(db, bar_width), y },
        size: Size { width: F32::of_int(TICK_W as int), height },
        ink,
    }
}

fn tick_at(db: F32, bar_width: F32) -> (r: F32)
    ensures
        r == tick_x(db, bar_width),
{
    let zero: F32 = F32::from_i32(0);
    let room: F32 = bar_width.sub(F32::from_i32(TICK_W)).max(zero);
    proof {
        lemma_zero_is_least(0);
    }
    norm(db).mul(bar_width).clamp(zero, room)
}

/// A vertical marker (tick or full-height line) at `db`'s x position.
pub fn draw_marker(db: F32, y: F32, height: F32, bar_width: F32, ink: Ink) -> (r: Shape)
    ensures
        r == tick(db, y, height, bar_width, ink),
{
    let x: F32 = tick_at(db, bar_width);
    Shape::Rectangle {
        at: Point { x, y },
        size: Size { width: F32::from_i32(TICK_W), height },
        ink,
    }
}

/// The `i`-th of three dashes of a full-height line.
pub open spec fn dash(x: F32, h: F32, i: int) -> Shape {
    let segment_h = h.div_spec(F32::of_int(5));
    Shape::Rectangle {
        at: Point { x, y: segment_h.mul_spec(F32::of_int(2 * i)) },
        size: Size { width: F32::of_int(TICK_W as int), height: segment_h },
        ink: solid(TEXT_MUTED),
    }
}

impl Meter {
    /// How far along a bar of width `w` a level reaches.
    pub open spec fn reach(db: F32, w: F32) -> F32 {
        norm_spec(db).mul_spec(w).clamp_spec(F32::of_int(0), w)
    }

    /// The background panel.
    pub open spec fn panel(w: F32, h: F32) -> Shape {
        let zero = F32 { bits: 0 };
        Shape::Rounded {
            at: Point { x: zero, y: zero },
            size: Size { width: w, height: h },
            radius: F32::of_int(8),
            ink: solid(SURFACE),
        }
    }

    /// The red-shaded region past the threshold, if any of it shows.
    pub open spec fn danger_zone(self, w: F32, h: F32) -> Seq<Shape> {
        let x = Self::reach(self.threshold_db, w);
        if self.threshold_db.finite() && x.lt_spec(w) {
            seq![
                Shape::Rectangle {
                    at: Point { x, y: F32 { bits: 0 } },
                    size: Size { width: w.sub_spec(x), height: h },
                    ink: faint(RED, 15),
                },
            ]
        } else {
            Seq::empty()
        }
    }

    /// The current level, filled from the left in whole dB.
    pub open spec fn level_bar(self, w: F32, h: F32) -> Seq<Shape> {
        let db = F32::of_int(drawn_db(self.level_db));
        let x = Self::reach(db, w);
        let inset = F32::of_int(4);
        if F32::of_int(0).lt_spec(x) {
            seq![
                Shape::RoundedLeft {
                    at: Point { x: F32 { bits: 0 }, y: inset },
                    size: Size {
                        width: x,
                        height: h.sub_spec(inset.mul_spec(F32::of_int(2))).max_spec(F32::of_int(0)),
                    },
                    radius: F32::of_int(4),
                    ink: faint(color_of(db, self.threshold_db), 85),
                },
            ]
        } else {
            Seq::empty()
        }
    }

    /// Ticks: noise floor, calibrated quiet point, and the ghost peak while it
    /// is over the noise floor.
    pub open spec fn ticks(self, w: F32, h: F32) -> Seq<Shape> {
        let tick_h = h.mul_spec(F32::of_ratio(6, 10));
        let tick_y = h.sub_spec(tick_h).div_spec(F32::of_int(2));
        let floor = seq![tick(self.noise_floor_db, tick_y, tick_h, w, faint(TEXT_MUTED, 40))];
        let quiet = match self.quiet_db {
            Some(db) => seq![tick(db, tick_y, tick_h, w, solid(TEXT_MUTED))],
            None => Seq::empty(),
        };
        let peak = if drawn_db(self.peak_db) > drawn_db(self.noise_floor_db) {
            let db = F32::of_int(drawn_db(self.peak_db));
            seq![tick(db, tick_y, tick_h, w, faint(color_of(db, self.threshold_db), 35))]
        } else {
            Seq::empty()
        };
        floor + quiet + peak
    }

    /// The threshold: a full-height line, once there is one.
    pub open spec fn threshold_line(self, w: F32, h: F32) -> Seq<Shape> {
        if self.threshold_db.finite() {
            seq![tick(self.threshold_db, F32 { bits: 0 }, h, w, faint(TEXT, 90))]
        } else {
            Seq::empty()
        }
    }

    /// The ceiling: a solid line if confirmed, three dashes if only estimated.
    pub open spec fn ceiling_line(self, w: F32, h: F32) -> Seq<Shape> {
        match self.ceiling_db {
            Some(db) => if self.ceiling_confirmed {
                seq![tick(db, F32 { bits: 0 }, h, w, solid(TEXT_MUTED))]
            } else {
                let x = tick_x(db, w);
                seq![dash(x, h, 0), dash(x, h, 1), dash(x, h, 2)]
            },
            None => Seq::empty(),
        }
    }

    /// The whole bar, back to front.
    pub open spec fn picture(self, w: F32, h: F32) -> Seq<Shape> {
        seq![Self::panel(w, h)] + self.danger_zone(w, h) + self.level_bar(w, h) + self.ticks(w, h)
            + self.threshold_line(w, h) + self.ceiling_line(w, h)
    }

    pub open spec fn key(self) -> DrawKey {
        DrawKey {
            level_db: whole_db(self.level_db) as i32,
            threshold_db: whole_db(self.threshold_db) as i32,
            peak_db: whole_db(self.peak_db) as i32,
            noise_floor_db: whole_db(self.noise_floor_db) as i32,
            quiet_db: whole_db_of(self.quiet_db),
            ceiling_db: whole_db_of(self.ceiling_db),
            ceiling_confirmed: self.ceiling_confirmed,
        }
    }

    pub fn draw_key(&self) -> (r: DrawKey)
        ensures
            r == self.key(),
    {
        DrawKey {
            level_db: round_db(self.level_db),
            threshold_db: round_db(self.threshold_db),
            peak_db: round_db(self.peak_db),
            noise_floor_db: round_db(self.noise_floor_db),
            quiet_db: round_db_of(self.quiet_db),
            ceiling_db: round_db_of(self.ceiling_db),
            ceiling_confirmed: self.ceiling_confirmed,
        }
    }

    /// Red-shaded region past the threshold. Skipped entirely when the
    /// threshold isn't finite yet.
    fn paint_danger_zone(&self, shapes: &mut Vec<Shape>, w: F32, h: F32)
        requires
            F32::of_int(0).le_spec(w),
        ensures
            final(shapes)@ == old(shapes)@ + self.danger_zone(w, h),
    {
        if self.threshold_db.is_finite() {
            let x: F32 = norm(self.threshold_db).mul(w).clamp(F32::from_i32(0), w);
            if x.lt(w) {
                shapes.push(
                    Shape::Rectangle {
                        at: Point { x, y: F32::from_bits(0) },
                        size: Size { width: w.sub(x), height: h },
                        ink: translucent(RED, 15),
                    },
                );
            }
        }
        assert(shapes@ =~= old(shapes)@ + self.danger_zone(w, h));
    }

    /// Current-level fill from the left, rounded on the left edge only,
    /// inset vertically so it reads as a bar within the panel.
    fn paint_level(&self, shapes: &mut Vec<Shape>, w: F32, h: F32)
        requires
            F32::of_int(0).le_spec(w),
        ensures
            final(shapes)@ == old(shapes)@ + self.level_bar(w, h),
    {
        let zero: F32 = F32::from_i32(0);
        let level_db: F32 = F32::from_i32(round_to_draw(self.level_db));
        let level_x: F32 = norm(level_db).mul(w).clamp(zero, w);
        if zero.lt(level_x) {
            let inset: F32 = F32::from_i32(4);
            let color: Color = level_color(level_db, self.threshold_db);
            shapes.push(
                Shape::RoundedLeft {
                    at: Point { x: F32::from_bits(0), y: inset },
                    size: Size {
                        width: level_x,
                        height: h.sub(inset.mul(F32::from_i32(2))).max(zero),
                    },
                    radius: F32::from_i32(4),
                    ink: translucent(color, 85),
                },
            );
        }
        assert(shapes@ =~= old(shapes)@ + self.level_bar(w, h));
    }

    /// Ticks: noise floor, calibrated quiet point, ghost peak.
    fn paint_ticks(&self, shapes: &mut Vec<Shape>, w: F32, h: F32)
        ensures
            final(shapes)@ == old(shapes)@ + self.ticks(w, h),
    {
        let tick_h: F32 = h.mul(F32::ratio(6, 10));
        let tick_y: F32 = h.sub(tick_h).div(F32::from_i32(2));
        shapes.push(
            draw_marker(self.noise_floor_db, tick_y, tick_h, w, translucent(TEXT_MUTED, 40)),
        );
        if let Some(quiet_db) = self.quiet_db {
            shapes.push(draw_marker(quiet_db, tick_y, tick_h, w, opaque(TEXT_MUTED)));
        }
        let peak_db_rounded: i32 = round_to_draw(self.peak_db);
        if peak_db_rounded > round_to_draw(self.noise_floor_db) {
            let peak_db: F32 = F32::from_i32(peak_db_rounded);
            let color: Color = level_color(peak_db, self.threshold_db);
            shapes.push(draw_marker(peak_db, tick_y, tick_h, w, translucent(color, 35)));
        }
        assert(shapes@ =~= old(shapes)@ + self.ticks(w, h));
    }

    /// Ceiling: solid full-height line if confirmed, dashed (three short
    /// segments) if only estimated from the baseline margin.
    fn paint_ceiling(&self, shapes: &mut Vec<Shape>, w: F32, h: F32)
        ensures
            final(shapes)@ == old(shapes)@ + self.ceiling_line(w, h),
    {
        let ghost done = shapes@;
        if let Some(ceiling_db) = self.ceiling_db {
            if self.ceiling_confirmed {
                shapes.push(
                    draw_marker(ceiling_db, F32::from_bits(0), h, w, opaque(TEXT_MUTED)),
                );
            } else {
                let x: F32 = tick_at(ceiling_db, w);
                let segment_h: F32 = h.div(F32::from_i32(5));
                let mut i: i32 = 0;
                while i < 3
                    invariant
                        0 <= i <= 3,
                        segment_h == h.div_spec(F32::of_int(5)),
                        shapes@ == done + Seq::new(i as nat, |j: int| dash(x, h, j)),
                    decreases 3 - i,
                {
                    let y: F32 = segment_h.mul(F32::from_i32(i * 2));
                    shapes.push(
                        Shape::Rectangle {
                            at: Point { x, y },
                            size: Size { width: F32::from_i32(TICK_W), height: segment_h },
                            ink: opaque(TEXT_MUTED),
                        },
                    );
                    i = i + 1;
                    assert(shapes@ =~= done + Seq::new(i as nat, |j: int| dash(x, h, j)));
                }
            }
        }
        assert(shapes@ =~= done + self.ceiling_line(w, h));
    }

    /// The shapes that make up the bar on a canvas of width `w` and height `h`.
    pub fn paint(&self, w: F32, h: F32) -> (r: Vec<Shape>)
        requires
            F32::of_int(0).le_spec(w),
        ensures
            r@ == self.picture(w, h),
    {
        let corner: F32 = F32::from_bits(0);
        let mut shapes: Vec<Shape> = Vec::new();
        shapes.push(
            Shape::Rounded {
                at: Point { x: corner, y: corner },
                size: Size { width: w, height: h },
                radius: F32::from_i32(8),
                ink: opaque(SURFACE),
            },
        );
        assert(shapes@ =~= seq![Self::panel(w, h)]);
        self.paint_danger_zone(&mut shapes, w, h);
        self.paint_level(&mut shapes, w, h);
        self.paint_ticks(&mut shapes, w, h);
        // The threshold line is skipped when not finite.
        let ghost done = shapes@;
        if self.threshold_db.is_finite() {
            shapes.push(draw_marker(self.threshold_db, corner, h, w, translucent(TEXT, 90)));
        }
        assert(shapes@ =~= done + self.threshold_line(w, h));
        self.paint_ceiling(&mut shapes, w, h);
        shapes
    }
}

/// Every level has a place on the bar: from 0 at the left edge to 1 at the
/// right.
pub proof fn law_norm_stays_on_the_bar(db: F32)
    requires
        !db.nan(),
    ensures
        F32::of_int(0).le_spec(norm_spec(db)),
        norm_spec(db).le_spec(F32::of_int(1)),
{
    let seventy = F32::of_int(70);
    lemma_of_int_monotone(1, 70);
    lemma_zero_is_least(1);
    let sum = db.add_spec(seventy);
    if db.finite() {
        lemma_add_order(db, seventy, seventy);
    } else {
        reveal(F32::add_spec);
    }
    lemma_div_defined(sum, seventy);
}

/// A tick for any level lies inside the bar.
pub proof fn law_ticks_stay_on_the_bar(db: F32, bar_width: F32)
    requires
        !db.nan(),
        bar_width.finite(),
        F32::of_int(0).le_spec(bar_width),
    ensures
        ({
            let room = bar_width.sub_spec(F32::of_int(TICK_W as int));
            let x = tick_x(db, bar_width);
            &&& F32::of_int(0).le_spec(x)
            &&& x.le_spec(room) || x.le_spec(F32::of_int(0))
        }),
{
    law_norm_stays_on_the_bar(db);
    lemma_of_int_exact(0);
    lemma_of_int_exact(1);
    lemma_of_int_exact(2);
    let place = norm_spec(db);
    lemma_scaled_order(place, F32::of_int(1));
    lemma_scaled_order(F32::of_int(0), place);
    assert(place.finite());
    lemma_mul_defined(place, bar_width);
    lemma_sub_order(bar_width, F32::of_int(2), bar_width);
}

/// The bar runs from -70 dB at its left edge to full scale at its right: a level
/// in between stands at its share of the 70 dB, one below at the left end, one
/// above at the right.
pub proof fn law_the_bar_runs_from_minus_70_to_full_scale(db: F32)
    requires
        !db.nan(),
    ensures
        db.le_spec(F32::of_int(-70)) ==> norm_spec(db).scaled() == 0,
        F32::of_int(0).le_spec(db) ==> norm_spec(db).scaled() == unit(),
        F32::of_int(-70).le_spec(db) && db.le_spec(F32::of_int(0)) ==> norm_spec(db) == db.add_spec(
            F32::of_int(70),
        ).div_spec(F32::of_int(70)),
{
    let seventy = F32::of_int(70);
    let zero = F32::of_int(0);
    let one = F32::of_int(1);
    let u = unit();
    vstd::arithmetic::power2::lemma_pow2_pos(149);
    lemma_of_int_exact(70);
    lemma_of_int_exact(-70);
    lemma_of_int_exact(0);
    lemma_of_int_exact(1);
    lemma_of_int_zero();
    lemma_of_int_monotone(1, 70);
    lemma_of_int_monotone(0, 1);
    lemma_int_ratio(70, 70, 1);
    law_norm_stays_on_the_bar(db);
    let sum = db.add_spec(seventy);
    let q = sum.div_spec(seventy);
    assert(grid(0) == 0);
    if db.finite() {
        lemma_add_order(db, seventy, zero);
        lemma_add_order(db, seventy, seventy);
    } else {
        reveal(F32::add_spec);
    }
    lemma_div_defined(sum, seventy);
    if db.le_spec(F32::of_int(-70)) {
        assert(sum.le_spec(zero));
        lemma_scaled_order(sum, zero);
        lemma_quotient_sign(sum, seventy);
    }
    if F32::of_int(-70).le_spec(db) {
        lemma_scaled_order(F32::of_int(-70), db);
        lemma_scaled_order(zero, sum);
        assert(zero.le_spec(sum));
        lemma_scaled_order(sum, seventy);
        lemma_scaled_order(seventy, sum);
        lemma_quotient_sign(sum, seventy);
        if sum.sign() {
            assert(sum.mag() == 0);
        } else {
            if sum.le_spec(seventy) {
                lemma_div_monotone(sum, seventy, seventy);
            } else if sum.finite() {
                lemma_div_monotone(seventy, sum, seventy);
            } else {
                reveal(F32::div_spec);
            }
            if seventy.le_spec(sum) && sum.finite() {
                lemma_div_monotone(seventy, sum, seventy);
            }
        }
        lemma_scaled_order(q, one);
        lemma_scaled_order(one, q);
        lemma_scaled_order(zero, q);
    }
}

/// A quotient by a number above zero keeps the sign, and a zero stays zero.
proof fn lemma_quotient_sign(a: F32, b: F32)
    requires
        !a.nan(),
        b.finite(),
        !b.sign(),
        b.mag() > 0,
    ensures
        !a.div_spec(b).nan(),
        a.div_spec(b).sign() == a.sign(),
        a.mag() == 0 ==> a.div_spec(b).mag() == 0,
        a.div_spec(b).sign() ==> a.div_spec(b).scaled() <= 0,
        !a.div_spec(b).sign() ==> a.div_spec(b).scaled() >= 0,
{
    reveal(F32::div_spec);
    lemma_div_defined(a, b);
    lemma_grid_monotone(0, b.mag());
    lemma_rounded_is_nearest(grid(a.mag()) * pow2(149), grid(b.mag()));
    let r = a.div_spec(b);
    lemma_grid_step(r.mag());
    assert(grid(0) == 0);
    if a.mag() == 0 {
        assert(0 * pow2(149) == 0) by (nonlinear_arith);
        lemma_zero_absorbs(b);
    }
}

/// The fill is red at the threshold and above, yellow up to 3 dB below it, green
/// further down, and green while there is no threshold.
pub proof fn law_the_fill_turns_red_at_the_threshold(level_db: F32, threshold_db: F32)
    ensures
        !threshold_db.finite() ==> color_of(level_db, threshold_db) == Color::Green,
        threshold_db.finite() ==> {
            let c = color_of(level_db, threshold_db);
            &&& c == Color::Red <==> threshold_db.le_spec(level_db)
            &&& c == Color::Yellow <==> !threshold_db.le_spec(level_db) && threshold_db.sub_spec(
                F32::of_int(3),
            ).le_spec(level_db)
            &&& c == Color::Red || c == Color::Yellow || c == Color::Green
        },
{
}

/// What the bar shows: its panel; the shaded zone past the threshold; the level
/// as far as it reaches, in its color; ticks for the noise floor, the quiet
/// point and a peak above the floor; a line at the threshold if there is one;
/// and the ceiling, whole if confirmed and in three dashes if not.
pub proof fn law_the_bar_shows_every_reading(m: Meter, w: F32, h: F32)
    ensures
        ({
            let level = F32::of_int(
                m.level_db.round_int(i32::MIN as int, i32::MAX as int),
            );
            let reach = norm_spec(level).mul_spec(w).clamp_spec(F32::of_int(0), w);
            let zone = norm_spec(m.threshold_db).mul_spec(w).clamp_spec(F32::of_int(0), w);
            let peak = m.peak_db.round_int(i32::MIN as int, i32::MAX as int);
            let floor = m.noise_floor_db.round_int(i32::MIN as int, i32::MAX as int);
            let zones = if m.threshold_db.finite() && zone.lt_spec(w) {
                1int
            } else {
                0
            };
            let fills = if F32::of_int(0).lt_spec(reach) {
                1int
            } else {
                0
            };
            let ticks = 1 + (if m.quiet_db is Some {
                1int
            } else {
                0
            }) + (if peak > floor {
                1int
            } else {
                0
            });
            let lines = if m.threshold_db.finite() {
                1int
            } else {
                0
            };
            let ceiling = if m.ceiling_db is None {
                0int
            } else if m.ceiling_confirmed {
                1
            } else {
                3
            };
            let p = m.picture(w, h);
            &&& p.len() == 1 + zones + fills + ticks + lines + ceiling
            &&& p[0] is Rounded
            &&& zones == 1 ==> (p[1] matches Shape::Rectangle { at, size, ink } && at.x == zone
                && size.width == w.sub_spec(zone) && size.height == h && ink.color == Color::Red)
            &&& fills == 1 ==> (p[1 + zones] matches Shape::RoundedLeft { at, size, ink, .. }
                && at.x == (F32 { bits: 0 }) && size.width == reach && ink.color == color_of(
                level,
                m.threshold_db,
            ))
            &&& p[1 + zones + fills] matches Shape::Rectangle { at, .. } && at.x == tick_x(
                m.noise_floor_db,
                w,
            )
            &&& m.quiet_db matches Some(db) ==> (p[2 + zones + fills] matches Shape::Rectangle {
                at,
                ..
            } && at.x == tick_x(db, w))
            &&& peak > floor ==> (p[zones + fills + ticks] matches Shape::Rectangle {
                at,
                ink,
                ..
            } && at.x == tick_x(F32::of_int(peak), w) && ink.color == color_of(
                F32::of_int(peak),
                m.threshold_db,
            ))
            &&& lines == 1 ==> (p[1 + zones + fills + ticks] matches Shape::Rectangle {
                at,
                size,
                ..
            } && at.x == tick_x(m.threshold_db, w) && size.height == h)
            &&& m.ceiling_db matches Some(db) ==> forall|i: int|
                p.len() - ceiling <= i < p.len() ==> (#[trigger] p[i] matches Shape::Rectangle {
                    at,
                    ..
                } && at.x == tick_x(db, w))
        }),
{
}

/// A tick stands at its level's place, two pixels wide, and is kept inside the
/// bar.
pub proof fn law_a_tick_stands_at_its_level(db: F32, w: F32)
    requires
        F32::of_int(0).le_spec(norm_spec(db).mul_spec(w)),
    ensures
        ({
            let place = norm_spec(db).mul_spec(w);
            let room = w.sub_spec(F32::of_int(2));
            &&& place.le_spec(room) ==> tick_x(db, w) == place
            &&& room.lt_spec(place) && F32::of_int(0).le_spec(room) ==> tick_x(db, w) == room
        }),
{
    lemma_zero_is_least(0);
}

/// A reading in whole dB, or zero if it is not finite.
pub open spec fn in_whole_db(db: F32) -> int {
    if db.finite() {
        db.round_int(i32::MIN as int, i32::MAX as int)
    } else {
        0
    }
}

/// The meter is drawn anew exactly when one of its readings or markers has changed
/// in whole dB, one has come or gone, or the ceiling's confirmation has changed.
pub proof fn law_the_meter_is_redrawn_on_whole_db_changes(a: Meter, b: Meter)
    ensures
        a.key() == b.key() <==> {
            &&& in_whole_db(a.level_db) == in_whole_db(b.level_db)
            &&& in_whole_db(a.threshold_db) == in_whole_db(b.threshold_db)
            &&& in_whole_db(a.peak_db) == in_whole_db(b.peak_db)
            &&& in_whole_db(a.noise_floor_db) == in_whole_db(b.noise_floor_db)
            &&& a.quiet_db is Some == b.quiet_db is Some
            &&& a.quiet_db is Some && b.quiet_db is Some ==> in_whole_db(a.quiet_db->0)
                == in_whole_db(b.quiet_db->0)
            &&& a.ceiling_db is Some == b.ceiling_db is Some
            &&& a.ceiling_db is Some && b.ceiling_db is Some ==> in_whole_db(a.ceiling_db->0)
                == in_whole_db(b.ceiling_db->0)
            &&& a.ceiling_confirmed == b.ceiling_confirmed
        },
{
}

} // verus!
