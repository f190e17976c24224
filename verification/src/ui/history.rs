//! The level-history graph: a scrolling ~30 s trace of the live mic level,
//! directly below the meter bar, colored per-segment by the state it was
//! sampled in so the threshold reads out of the trace itself. The noise floor
//! and ceiling are drawn behind it as horizontal reference lines.

use std::collections::VecDeque;

use vstd::prelude::*;

#[allow(unused_imports)]
use crate::binary32::order::{
    lemma_of_int_monotone, lemma_of_int_zero, lemma_sub_zero, lemma_zero_absorbs, positive,
};
use crate::binary32::F32;
#[allow(unused_imports)]
use crate::ui::meter::{
    color_of, in_whole_db, level_color, norm, norm_spec, round_db, round_db_of, whole_db, whole_db_of, Point,
    Shape, Size,
};
#[allow(unused_imports)]
use crate::ui::theme::{faint, opaque, solid, translucent, Color, Ink, SURFACE, TEXT_MUTED};

verus! {

/// How many (level_db, threshold_db) samples the graph holds — 30 s at the
/// 80 ms tick cadence. Also the fixed x-scale `sample_x` maps against, so the
/// trace scrolls at a constant rate rather than stretching to fill the width
/// as it fills up.
pub const HISTORY_CAPACITY: usize = 375;

/// A level reading at/below this is the "no live data" placeholder, not a
/// genuine near-floor-quiet reading, in dB. A segment with both endpoints
/// at/below this is skipped so a paused/deviceless stretch doesn't draw a flat
/// colored line that reads as a real (very quiet) signal.
pub const SENTINEL_DB: i32 = -99;

/// Room between the trace and the panel's border.
pub const INSET: i32 = 3;

/// Everything the history graph draws: the trailing samples (oldest at the
/// front, newest at the back) plus the static noise-floor/ceiling markers
/// from the device's calibration.
pub struct History<'a> {
    pub samples: &'a VecDeque<(F32, F32)>,
    /// Fixed x-scale (see `HISTORY_CAPACITY`).
    pub capacity: usize,
    pub noise_floor_db: F32,
    pub ceiling_db: Option<F32>,
    /// false = the ceiling is an estimate derived from the baseline margin
    /// (drawn dashed); true = a confirmed calibration point (drawn solid).
    pub ceiling_confirmed: bool,
}

/// The newest sample stands at the right edge, each older one a slot further
/// left.
pub open spec fn x_of(i: int, n: int, capacity: int, w: F32) -> F32 {
    if n == 0 || capacity <= 1 {
        w
    } else {
        w.sub_spec(
            F32::of_int(n - 1 - i).mul_spec(w).div_spec(F32::of_int(capacity - 1)),
        )
    }
}

/// x position of sample index `i` (0 = oldest currently held) out of `n`
/// total samples, on a fixed `capacity`-wide scale: the newest sample
/// (`i == n - 1`) always sits at the right edge (`w`), and each older sample
/// steps one `w / (capacity - 1)` increment further left.
pub fn sample_x(i: usize, n: usize, capacity: usize, w: F32) -> (r: F32)
    requires
        n == 0 || capacity <= 1 || i < n,
    ensures
        r == x_of(i as int, n as int, capacity as int, w),
{
    if n == 0 || capacity <= 1 {
        return w;
    }
    let slots: F32 = F32::from_usize(capacity - 1);
    w.sub(F32::from_usize(n - 1 - i).mul(w).div(slots))
}

/// A higher level stands higher up the panel.
pub open spec fn y_of(level_db: F32, h: F32, inset: F32) -> F32 {
    let usable = h.sub_spec(inset.mul_spec(F32::of_int(2))).max_spec(F32::of_int(0));
    inset.add_spec(F32::of_int(1).sub_spec(norm_spec(level_db)).mul_spec(usable))
}

/// y position for a level reading: `norm`'s 0..1 mapped to the frame's
/// height and inverted (a higher level draws higher up the panel), inset by
/// `inset` on both edges so the trace/lines never touch the panel's border.
pub fn sample_y(level_db: F32, h: F32, inset: F32) -> (r: F32)
    ensures
        r == y_of(level_db, h, inset),
{
    let usable: F32 = h.sub(inset.mul(F32::from_i32(2))).max(F32::from_i32(0));
    inset.add(F32::from_i32(1).sub(norm(level_db)).mul(usable))
}

/// One drawn stroke of the trace, in frame-local coordinates.
#[derive(Debug, Clone, Copy, PartialEq, Eq, Structural)]
pub struct Segment {
    pub from: Point,
    pub to: Point,
    pub color: Color,
}

/// No live data.
pub open spec fn missing(level_db: F32) -> bool {
    level_db.le_spec(F32::of_int(SENTINEL_DB as int))
}

/// The stroke between two neighbouring samples, colored by the newer one.
pub open spec fn stroke(s: Seq<(F32, F32)>, i: int, capacity: int, w: F32, h: F32, inset: F32) -> Segment {
    let n = s.len() as int;
    Segment {
        from: Point { x: x_of(i, n, capacity, w), y: y_of(s[i].0, h, inset) },
        to: Point { x: x_of(i + 1, n, capacity, w), y: y_of(s[i + 1].0, h, inset) },
        color: color_of(s[i + 1].0, s[i + 1].1),
    }
}

/// The strokes that begin at one of the first `k` samples: every pair of
/// neighbours but those without live data at either end.
pub open spec fn strokes(
    s: Seq<(F32, F32)>,
    k: int,
    capacity: int,
    w: F32,
    h: F32,
    inset: F32,
) -> Seq<Segment>
    decreases k,
{
    if k <= 0 {
        Seq::empty()
    } else {
        let before = strokes(s, k - 1, capacity, w, h, inset);
        if missing(s[k - 1].0) && missing(s[k].0) {
            before
        } else {
            before.push(stroke(s, k - 1, capacity, w, h, inset))
        }
    }
}

/// The strokes of the trace, oldest first.
pub fn build_segments(
    samples: &VecDeque<(F32, F32)>,
    capacity: usize,
    w: F32,
    h: F32,
    inset: F32,
) -> (r: Vec<Segment>)
    ensures
        r@ == strokes(samples@, samples@.len() - 1, capacity as int, w, h, inset),
{
    let n: usize = samples.len();
    let mut segments: Vec<Segment> = Vec::new();
    if n < 2 {
        return segments;
    }
    let sentinel: F32 = F32::from_i32(SENTINEL_DB);
    let mut i: usize = 0;
    while i < n - 1
        invariant
            2 <= n == samples@.len(),
            i <= n - 1,
            sentinel == F32::of_int(SENTINEL_DB as int),
            segments@ == strokes(samples@, i as int, capacity as int, w, h, inset),
        decreases n - i,
    {
        let a: (F32, F32) = samples[i];
        let b: (F32, F32) = samples[i + 1];
        if !(a.0.le(sentinel) && b.0.le(sentinel)) {
            let from: Point = Point {
                x: sample_x(i, n, capacity, w),
                y: sample_y(a.0, h, inset),
            };
            let to: Point = Point {
                x: sample_x(i + 1, n, capacity, w),
                y: sample_y(b.0, h, inset),
            };
            segments.push(Segment { from, to, color: level_color(b.0, b.1) });
        }
        i = i + 1;
    }
    segments
}

/// Rounded-to-whole-dB snapshot of what the graph draws. The samples are told
/// apart by their number and the newest one.
#[derive(Debug, Clone, Copy, PartialEq, Eq)]
pub struct DrawKey {
    pub len: usize,
    pub newest: Option<(i32, i32)>,
    pub noise_floor_db: i32,
    pub ceiling_db: Option<i32>,
    pub ceiling_confirmed: bool,
}

/// A thin line across the graph.
pub open spec fn rule(x: F32, y: F32, width: F32, ink: Ink) -> Shape {
    Shape::Rectangle { at: Point { x, y }, size: Size { width, height: F32::of_int(1) }, ink }
}

fn horizontal(x: F32, y: F32, width: F32, ink: Ink) -> (r: Shape)
    ensures
        r == rule(x, y, width, ink),
{
    Shape::Rectangle { at: Point { x, y }, size: Size { width, height: F32::from_i32(1) }, ink }
}

/// A stroke of the trace as it is drawn.
pub open spec fn trace_line(s: Segment) -> Shape {
    Shape::Line { from: s.from, to: s.to, width: F32::of_int(2), ink: faint(s.color, 90) }
}

impl<'a> History<'a> {
    /// The background panel and the noise floor.
    pub open spec fn backdrop(self, w: F32, h: F32) -> Seq<Shape> {
        let zero = F32 { bits: 0 };
        seq![
            Shape::Rounded {
                at: Point { x: zero, y: zero },
                size: Size { width: w, height: h },
                radius: F32::of_int(8),
                ink: solid(SURFACE),
            },
            rule(
                zero,
                y_of(self.noise_floor_db, h, F32::of_int(INSET as int)),
                w,
                faint(TEXT_MUTED, 40),
            ),
        ]
    }

    /// The `i`-th of three dashes of the ceiling.
    pub open spec fn ceiling_dash(y: F32, w: F32, i: int) -> Shape {
        let segment_w = w.div_spec(F32::of_int(5));
        rule(segment_w.mul_spec(F32::of_int(2 * i)), y, segment_w, solid(TEXT_MUTED))
    }

    /// The ceiling: a solid line if confirmed, three dashes if only estimated.
    pub open spec fn ceiling_line(self, w: F32, h: F32) -> Seq<Shape> {
        match self.ceiling_db {
            Some(db) => {
                let y = y_of(db, h, F32::of_int(INSET as int));
                if self.ceiling_confirmed {
                    seq![rule(F32 { bits: 0 }, y, w, solid(TEXT_MUTED))]
                } else {
                    seq![
                        Self::ceiling_dash(y, w, 0),
                        Self::ceiling_dash(y, w, 1),
                        Self::ceiling_dash(y, w, 2),
                    ]
                }
            },
            None => Seq::empty(),
        }
    }

    /// The whole graph, back to front.
    pub open spec fn picture(self, w: F32, h: F32) -> Seq<Shape> {
        let s = self.samples@;
        let trace = strokes(
            s,
            s.len() - 1,
            self.capacity as int,
            w,
            h,
            F32::of_int(INSET as int),
        );
        self.backdrop(w, h) + self.ceiling_line(w, h) + trace.map_values(
            |s: Segment| trace_line(s),
        )
    }

    /// The shapes that make up the graph on a canvas of width `w` and height `h`.
    pub fn paint(&self, w: F32, h: F32) -> (r: Vec<Shape>)
        ensures
            r@ == self.picture(w, h),
    {
        let zero: F32 = F32::from_bits(0);
        let inset: F32 = F32::from_i32(INSET);
        let mut shapes: Vec<Shape> = Vec::new();
        shapes.push(
            Shape::Rounded {
                at: Point { x: zero, y: zero },
                size: Size { width: w, height: h },
                radius: F32::from_i32(8),
                ink: opaque(SURFACE),
            },
        );
        let floor_y: F32 = sample_y(self.noise_floor_db, h, inset);
        shapes.push(
            horizontal(zero, floor_y, w, translucent(TEXT_MUTED, 40)),
        );
        assert(shapes@ =~= self.backdrop(w, h));
        let ghost done = shapes@;

        if let Some(ceiling_db) = self.ceiling_db {
            let y: F32 = sample_y(ceiling_db, h, inset);
            let ink: Ink = opaque(TEXT_MUTED);
            if self.ceiling_confirmed {
                shapes.push(horizontal(zero, y, w, ink));
            } else {
                let segment_w: F32 = w.div(F32::from_i32(5));
                let mut i: i32 = 0;
                while i < 3
                    invariant
                        0 <= i <= 3,
                        segment_w == w.div_spec(F32::of_int(5)),
                        ink == solid(TEXT_MUTED),
                        shapes@ == done + Seq::new(i as nat, |j: int| Self::ceiling_dash(y, w, j)),
                    decreases 3 - i,
                {
                    let x: F32 = segment_w.mul(F32::from_i32(i * 2));
                    shapes.push(horizontal(x, y, segment_w, ink));
                    i = i + 1;
                    assert(shapes@ =~= done + Seq::new(
                        i as nat,
                        |j: int| Self::ceiling_dash(y, w, j),
                    ));
                }
            }
        }
        assert(shapes@ =~= done + self.ceiling_line(w, h));
        let ghost done = shapes@;

        let segments: Vec<Segment> = build_segments(self.samples, self.capacity, w, h, inset);
        let width: F32 = F32::from_i32(2);
        let ghost lines = segments@.map_values(|s: Segment| trace_line(s));
        let mut k: usize = 0;
        assert(done + lines.take(0) =~= done);
        while k < segments.len()
            invariant
                k <= segments@.len(),
                width == F32::of_int(2),
                lines == segments@.map_values(|s: Segment| trace_line(s)),
                shapes@ == done + lines.take(k as int),
            decreases segments@.len() - k,
        {
            let s: Segment = segments[k];
            shapes.push(
                Shape::Line { from: s.from, to: s.to, width, ink: translucent(s.color, 90) },
            );
            k = k + 1;
            assert(shapes@ =~= done + lines.take(k as int));
        }
        assert(lines.take(k as int) =~= lines);
        shapes
    }

    pub open spec fn key(self) -> DrawKey {
        let s = self.samples@;
        DrawKey {
            len: s.len() as usize,
            newest: if s.len() == 0 {
                None
            } else {
                Some((whole_db(s.last().0) as i32, whole_db(s.last().1) as i32))
            },
            noise_floor_db: whole_db(self.noise_floor_db) as i32,
            ceiling_db: whole_db_of(self.ceiling_db),
            ceiling_confirmed: self.ceiling_confirmed,
        }
    }

    pub fn draw_key(&self) -> (r: DrawKey)
        ensures
            r == self.key(),
    {
        let n: usize = self.samples.len();
        let newest: Option<(i32, i32)> = if n == 0 {
            None
        } else {
            let last: (F32, F32) = self.samples[n - 1];
            Some((round_db(last.0), round_db(last.1)))
        };
        DrawKey {
            len: n,
            newest,
            noise_floor_db: round_db(self.noise_floor_db),
            ceiling_db: round_db_of(self.ceiling_db),
            ceiling_confirmed: self.ceiling_confirmed,
        }
    }
}

/// The newest sample always sits at the right edge.
pub proof fn law_the_newest_sample_is_at_the_right_edge(n: int, capacity: int, w: F32)
    requires
        1 <= n,
        capacity <= u64::MAX,
        positive(w),
        w.finite(),
    ensures
        x_of(n - 1, n, capacity, w) == w,
{
    if capacity > 1 {
        lemma_of_int_monotone(1, capacity - 1);
        lemma_of_int_zero();
        lemma_zero_absorbs(w);
        lemma_zero_absorbs(F32::of_int(capacity - 1));
        lemma_sub_zero(w);
    }
}

/// Whether the stroke after sample `i` has live data at either end.
pub open spec fn drawn(s: Seq<(F32, F32)>, i: int) -> bool {
    !s[i].0.le_spec(F32::of_int(-99)) || !s[i + 1].0.le_spec(F32::of_int(-99))
}

/// The trace joins every two neighbouring samples, oldest first, leaving out the
/// pairs that are both at or below -99 dB: for each place there is one stroke,
/// and no others.
pub proof fn law_the_trace_joins_neighbouring_samples(
    s: Seq<(F32, F32)>,
    capacity: int,
    w: F32,
    h: F32,
    inset: F32,
    k: int,
)
    requires
        0 <= k <= s.len(),
    ensures
        strokes(s, k, capacity, w, h, inset) == Seq::new(k as nat, |i: int| i).filter(
            |i: int| drawn(s, i),
        ).map_values(|i: int| stroke(s, i, capacity, w, h, inset)),
    decreases k,
{
    reveal(Seq::filter);
    let places = Seq::new(k as nat, |i: int| i);
    if k > 0 {
        law_the_trace_joins_neighbouring_samples(s, capacity, w, h, inset, k - 1);
        assert(places.drop_last() =~= Seq::new((k - 1) as nat, |i: int| i));
        assert(places.last() == k - 1);
    }
    assert(strokes(s, k, capacity, w, h, inset) =~= places.filter(
        |i: int| drawn(s, i),
    ).map_values(|i: int| stroke(s, i, capacity, w, h, inset)));
}

/// A stroke runs from a sample to the next newer one, each at its own level, and
/// has the color of the newer level against the threshold of its time. A sample
/// stands as many slots left of the right edge as there are newer ones; a slot
/// is the width over the capacity less one. Its height is its place on the
/// scale of the bar, turned upside down, within the inset.
pub proof fn law_a_stroke_shows_two_readings(
    s: Seq<(F32, F32)>,
    i: int,
    capacity: int,
    w: F32,
    h: F32,
    inset: F32,
)
    requires
        0 <= i < s.len() - 1,
        capacity > 1,
    ensures
        ({
            let k = stroke(s, i, capacity, w, h, inset);
            let slots = F32::of_int(capacity - 1);
            let room = h.sub_spec(inset.mul_spec(F32::of_int(2)));
            let usable = if room.lt_spec(F32::of_int(0)) || room.nan() {
                F32::of_int(0)
            } else {
                room
            };
            &&& k.from.x == w.sub_spec(
                F32::of_int(s.len() - 1 - i).mul_spec(w).div_spec(slots),
            )
            &&& k.to.x == w.sub_spec(
                F32::of_int(s.len() - 2 - i).mul_spec(w).div_spec(slots),
            )
            &&& k.from.y == inset.add_spec(
                F32::of_int(1).sub_spec(norm_spec(s[i].0)).mul_spec(usable),
            )
            &&& k.to.y == inset.add_spec(
                F32::of_int(1).sub_spec(norm_spec(s[i + 1].0)).mul_spec(usable),
            )
            &&& k.color == color_of(s[i + 1].0, s[i + 1].1)
        }),
{
    crate::ui::meter::lemma_zero_is_least(0);
}

/// What the graph shows: its panel and the noise floor; the ceiling, whole if
/// confirmed and in three dashes if not; and over them every stroke of the
/// trace.
pub proof fn law_the_graph_shows_the_whole_trace(g: History<'_>, w: F32, h: F32)
    ensures
        ({
            let s = g.samples@;
            let trace = strokes(s, s.len() - 1, g.capacity as int, w, h, F32::of_int(3));
            let ceiling = if g.ceiling_db is None {
                0int
            } else if g.ceiling_confirmed {
                1
            } else {
                3
            };
            let p = g.picture(w, h);
            &&& p.len() == 2 + ceiling + trace.len()
            &&& p[0] is Rounded
            &&& p[1] matches Shape::Rectangle { at, size, .. } && at.y == y_of(
                g.noise_floor_db,
                h,
                F32::of_int(3),
            ) && size.width == w
            &&& g.ceiling_db matches Some(db) ==> forall|i: int|
                2 <= i < 2 + ceiling ==> (#[trigger] p[i] matches Shape::Rectangle { at, .. }
                    && at.y == y_of(db, h, F32::of_int(3)))
            &&& forall|i: int|
                0 <= i < trace.len() ==> {
                    let stroke = #[trigger] trace[i];
                    p[2 + ceiling + i] matches Shape::Line { from, to, ink, .. } && from
                        == stroke.from && to == stroke.to && ink.color == stroke.color
                }
        }),
{
}

/// The graph is drawn anew when a sample was added, or the newest one or a marker
/// has changed in whole dB.
pub proof fn law_the_graph_is_redrawn_for_new_samples(a: History<'_>, b: History<'_>)
    requires
        a.key() == b.key(),
        a.samples@.len() <= usize::MAX,
        b.samples@.len() <= usize::MAX,
    ensures
        a.samples@.len() == b.samples@.len(),
        a.samples@.len() > 0 ==> in_whole_db(a.samples@.last().0) == in_whole_db(
            b.samples@.last().0,
        ) && in_whole_db(a.samples@.last().1) == in_whole_db(b.samples@.last().1),
        in_whole_db(a.noise_floor_db) == in_whole_db(b.noise_floor_db),
        a.ceiling_db is Some == b.ceiling_db is Some,
        a.ceiling_db is Some && b.ceiling_db is Some ==> in_whole_db(a.ceiling_db->0)
            == in_whole_db(b.ceiling_db->0),
        a.ceiling_confirmed == b.ceiling_confirmed,
{
}

} // verus!
