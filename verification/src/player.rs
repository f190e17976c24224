//! Alert playback: the cursor that feeds an output stream, and the decisions
//! of the worker that owns the stream.
//!
//! Lifecycle: the first request opens the output stream; subsequent requests
//! reuse it (restarting playback from the top — right for alerts, which never
//! need to queue). After 10 s with nothing playing, the stream is dropped
//! (closes the device) so a quiet session costs nothing.

use std::sync::Arc;

use vstd::prelude::*;
#[allow(unused_imports)]
use vstd::arithmetic::power2::{
    lemma2_to64, lemma_pow2_adds, lemma_pow2_pos, lemma_pow2_strictly_increases, pow2,
};

#[allow(unused_imports)]
use crate::binary32::order::{
    lemma_add_error, lemma_add_is_rounded, lemma_add_order, lemma_grid_rounds_to_itself,
    lemma_int_add, lemma_int_ratio,
    lemma_mul_defined, lemma_mul_shrinks, lemma_neg_scaled, lemma_of_int_exact,
    lemma_of_int_monotone, lemma_of_int_zero, lemma_rounded_is_nearest, lemma_scaled_back,
    lemma_whole_on_grid, lemma_whole_scaled_on_grid, positive, rank, unit,
};
#[allow(unused_imports)]
use crate::binary32::round::lemma_rounded;
#[allow(unused_imports)]
use crate::binary32::{
    grid, lemma_grid_linear, lemma_grid_monotone, lemma_grid_step, lemma_scaled_order, F32, INF_MAG,
};
#[allow(unused_imports)]
use crate::ui::meter::lemma_zero_is_least;

verus! {

/// How long the worker waits for a request before it considers closing.
pub const IDLE_TIMEOUT_SECS: u64 = 10;

/// Up to here ones are counted off from an accumulator exactly. Further up
/// singles are two apart and more, and a one taken off is soon lost in rounding.
pub const ACC_LIMIT: i32 = 0x100_0000;

/// The accumulator of a tick, before whole steps are taken off.
pub open spec fn ticked(acc: F32, step: F32) -> F32 {
    acc.add_spec(step)
}

/// A whole step is due.
pub open spec fn due(acc: F32) -> bool {
    F32::of_int(1).le_spec(acc)
}

/// One less.
pub open spec fn one_off(acc: F32) -> F32 {
    acc.sub_spec(F32::of_int(1))
}

/// Ones are taken off while there is one to take: how many, and what is left.
/// `None` if a one taken off is lost in rounding, so that there would be no end
/// to it.
pub open spec fn counted(acc: F32) -> Option<(nat, F32)>
    decreases rank(acc),
{
    proof {
        lemma_scaled_order(one_off(acc), acc);
    }
    if !due(acc) {
        Some((0, acc))
    } else if !one_off(acc).lt_spec(acc) {
        None
    } else {
        match counted(one_off(acc)) {
            Some((k, rest)) => Some((k + 1, rest)),
            None => None,
        }
    }
}

/// Takes ones off an accumulator; how many, and what is left.
fn count_off(acc: F32) -> (r: Option<(usize, F32)>)
    ensures
        match counted(acc) {
            Some((k, rest)) => r matches Some((n, left)) && n == k && left == rest,
            None => r is None,
        },
{
    let one: F32 = F32::from_i32(1);
    let mut left: F32 = acc;
    let mut n: usize = 0;
    while one.le(left)
        invariant
            one == F32::of_int(1),
            counted(acc) == (match counted(left) {
                Some((k, rest)) => Some(((n + k) as nat, rest)),
                None => None,
            }),
            n == 0 ==> left == acc,
            n > 0 ==> n + rank(left) <= 0xff80_0000,
        decreases rank(left),
    {
        let less: F32 = left.sub(one);
        proof {
            lemma_scaled_order(less, left);
        }
        if !less.lt(left) {
            return None;
        }
        left = less;
        n = n + 1;
    }
    Some((n, left))
}

/// Nearest-sample rate-conversion step for one output tick: `acc`
/// accumulates by `step` each tick, and every time it crosses 1.0 the read
/// position advances (possibly by more than one, if `step > 1`). For
/// `step < 1` (output rate faster than source rate) the same source
/// sample is read on consecutive ticks — a natural repeat. For `step > 1`
/// (output rate slower than source rate) `pos` occasionally jumps by 2 in
/// one tick — a natural skip.
pub fn advance(acc: F32, step: F32, pos: usize) -> (r: (F32, usize))
    requires
        counted(ticked(acc, step)) matches Some((k, _)) && pos + k <= usize::MAX,
    ensures
        counted(ticked(acc, step)) matches Some((k, rest)) && r.0 == rest && r.1 == pos + k,
{
    match count_off(acc.add(step)) {
        Some((n, left)) => (left, pos + n),
        None => (acc, pos),
    }
}

/// One can be taken off exactly while there is a whole one, up to the limit.
proof fn lemma_minus_one_exact(x: F32)
    requires
        positive(x),
        unit() <= x.scaled() <= ACC_LIMIT * unit(),
    ensures
        positive(x.sub_spec(F32::of_int(1))),
        x.sub_spec(F32::of_int(1)).scaled() == x.scaled() - unit(),
{
    let u = unit();
    let p = x.mag();
    let g = grid(p);
    let rest = lemma_minus_one_on_grid(p);
    lemma_of_int_exact(1);
    lemma_neg_scaled(F32::of_int(1));
    lemma_grid_rounds_to_itself(rest);
    reveal(F32::add_spec);
    assert(grid(0) == 0);
    let top = lemma_whole_on_grid(ACC_LIMIT as int);
    if p > top {
        lemma_grid_monotone(top, p);
    }
    assert(x.finite());
    if rest > 0 {
        lemma_grid_monotone(0, rest);
    }
}

/// The grid below 2^24 is fine enough to take one off.
proof fn lemma_minus_one_on_grid(p: int) -> (rest: int)
    requires
        0 <= p,
        unit() <= grid(p) <= ACC_LIMIT * unit(),
    ensures
        0 <= rest < INF_MAG,
        grid(rest) == grid(p) - unit(),
{
    let u = unit();
    lemma2_to64();
    lemma_pow2_pos(149);
    let e = p / 0x80_0000;
    let f = p % 0x80_0000;
    lemma_pow2_strictly_increases(23, 149);
    assert(e > 0);
    let base = e - 1;
    let q = 0x80_0000 + f;
    let b = pow2(base as nat) as int;
    lemma_pow2_pos(base as nat);
    assert(grid(p) == q * b);
    if base >= 150 {
        lemma_pow2_adds(1, 149);
        if base > 150 {
            lemma_pow2_strictly_increases(150, base as nat);
        }
        assert(q * b >= 0x100_0000 * u) by (nonlinear_arith)
            requires
                q >= 0x80_0000,
                b >= 2 * u,
                u > 0,
        ;
        lemma_whole_on_grid(0xff_ffff)
    } else {
        let d = 149 - base;
        lemma_pow2_adds(d as nat, base as nat);
        let t = pow2(d as nat) as int;
        assert(u == t * b);
        assert(q >= t) by (nonlinear_arith)
            requires
                q * b >= t * b,
                b > 0,
        ;
        lemma_pow2_pos(d as nat);
        assert((q - t) * b == q * b - t * b) by (nonlinear_arith);
        lemma_whole_scaled_on_grid(q - t, base)
    }
}

/// A volume limited to 0..=1, whatever is passed in; a NaN is silence.
pub open spec fn audible(volume: F32) -> F32 {
    if volume.nan() {
        F32::of_int(0)
    } else {
        volume.clamp_spec(F32::of_int(0), F32::of_int(1))
    }
}

/// A sample at a volume, limited to full scale.
pub open spec fn mixed(sample: F32, volume: F32) -> F32 {
    sample.mul_spec(audible(volume)).clamp_spec(F32::of_int(-1), F32::of_int(1))
}

proof fn lemma_minus_one_below_one()
    ensures
        F32::of_int(-1).le_spec(F32::of_int(1)),
        F32::of_int(0).le_spec(F32::of_int(1)),
{
    lemma_of_int_exact(-1);
    lemma_of_int_exact(1);
    lemma_zero_is_least(1);
    lemma_pow2_pos(149);
}

/// Applies volume (clamped to 0..=1, in case a caller passes something out
/// of range) and clamps the resulting sample to [-1, 1] so a loud volume
/// times a near-full-scale sample never wraps.
pub fn mix_sample(sample: F32, volume: F32) -> (r: F32)
    ensures
        r == mixed(sample, volume),
        sample.finite() ==> {
            &&& F32::of_int(-1).le_spec(r)
            &&& r.le_spec(F32::of_int(1))
            &&& r.mag() <= sample.mag()
        },
{
    proof {
        lemma_minus_one_below_one();
        if sample.finite() {
            law_mixing_stays_within_full_scale(sample, volume);
        }
    }
    let one: F32 = F32::from_i32(1);
    let volume: F32 = if volume.is_nan() {
        F32::from_i32(0)
    } else {
        volume.clamp(F32::from_i32(0), one)
    };
    sample.mul(volume).clamp(F32::from_i32(-1), one)
}

/// A value limited to full scale.
pub open spec fn limited(v: F32) -> F32 {
    v.clamp_spec(F32::of_int(-1), F32::of_int(1))
}

/// A sample for a signed 16-bit device.
pub fn to_i16(v: F32) -> (r: i16)
    ensures
        r == limited(v).mul_spec(F32::of_int(32767)).cast_int(i16::MIN as int, i16::MAX as int),
{
    proof {
        lemma_minus_one_below_one();
    }
    v.clamp(F32::from_i32(-1), F32::from_i32(1)).mul(F32::from_i32(32767)).to_i16()
}

/// A sample for an unsigned 16-bit device.
pub fn to_u16(v: F32) -> (r: u16)
    ensures
        r == limited(v).add_spec(F32::of_int(1)).mul_spec(F32::of_ratio(65535, 2)).cast_int(
            0,
            u16::MAX as int,
        ),
{
    proof {
        lemma_minus_one_below_one();
    }
    let one: F32 = F32::from_i32(1);
    v.clamp(F32::from_i32(-1), one).add(one).mul(F32::ratio(65535, 2)).to_u16()
}

/// A request to play one alert sound.
pub struct PlayRequest {
    /// Mono samples at `source_rate`.
    pub samples: Arc<Vec<F32>>,
    pub source_rate: u32,
    /// 0..=1; clamped at write time regardless of what's passed in.
    pub volume: F32,
    /// `None` = system default output device.
    pub device_name: Option<String>,
}

/// Shared playback cursor, read by the output stream's realtime callback
/// and written by the worker on each new request.
pub struct Playback {
    pub samples: Arc<Vec<F32>>,
    pub volume: F32,
    /// Source samples per output sample.
    pub step: F32,
    pub acc: F32,
    pub pos: usize,
    pub active: bool,
}

/// A position moved on by `k`, up to the last there is.
pub open spec fn moved_on(pos: usize, k: nat) -> usize {
    if pos + k <= usize::MAX {
        (pos + k) as usize
    } else {
        usize::MAX
    }
}

impl Playback {
    /// The buffer being played.
    pub open spec fn buffer(self) -> Seq<F32> {
        (*self.samples)@
    }

    /// Something is left to play.
    pub open spec fn sounding(self) -> bool {
        self.active && self.pos < self.buffer().len()
    }

    /// The sample that comes next: silence once the buffer is exhausted or
    /// nothing is active.
    pub open spec fn sample(self) -> F32 {
        if self.sounding() {
            mixed(self.buffer()[self.pos as int], self.volume)
        } else {
            F32 { bits: 0 }
        }
    }

    /// The cursor after that sample: moved on by what is counted off the
    /// accumulator. A step with no end to the counting ends the sound.
    pub open spec fn next(self) -> Playback {
        if self.sounding() {
            match counted(ticked(self.acc, self.step)) {
                Some((k, rest)) => {
                    let pos = moved_on(self.pos, k);
                    Playback { acc: rest, pos, active: pos < self.buffer().len(), ..self }
                },
                None => Playback { active: false, ..self },
            }
        } else {
            Playback { active: false, ..self }
        }
    }

    /// The cursor after `n` samples.
    pub open spec fn after(self, n: nat) -> Playback
        decreases n,
    {
        if n == 0 {
            self
        } else {
            self.after((n - 1) as nat).next()
        }
    }

    pub fn silent() -> (r: Playback)
        ensures
            r.buffer().len() == 0,
            r.volume == F32::of_int(0),
            r.step == F32::of_int(1),
            r.acc == F32::of_int(0),
            r.pos == 0,
            !r.active,
    {
        Playback {
            samples: Arc::new(Vec::new()),
            volume: F32::from_i32(0),
            step: F32::from_i32(1),
            acc: F32::from_i32(0),
            pos: 0,
            active: false,
        }
    }

    /// Play a request from the top.
    pub fn start(&mut self, samples: Arc<Vec<F32>>, volume: F32, step: F32)
        ensures
            *final(self) == (Playback {
                samples,
                volume,
                step,
                acc: F32::of_int(0),
                pos: 0,
                active: true,
            }),
    {
        self.samples = samples;
        self.volume = volume;
        self.step = step;
        self.acc = F32::from_i32(0);
        self.pos = 0;
        self.active = true;
    }

    /// Produces the next mono output sample (already volume-scaled and
    /// clamped), advancing the read cursor. Returns silence once the
    /// buffer is exhausted or nothing is active.
    pub fn next_sample(&mut self) -> (r: F32)
        ensures
            *final(self) == old(self).next(),
            r == old(self).sample(),
    {
        let len: usize = self.samples.len();
        if !self.active || self.pos >= len {
            self.active = false;
            return F32::from_bits(0);
        }
        let source: F32 = self.samples[self.pos];
        let value: F32 = mix_sample(source, self.volume);
        match count_off(self.acc.add(self.step)) {
            Some((n, left)) => {
                self.acc = left;
                self.pos = if n <= usize::MAX - self.pos {
                    self.pos + n
                } else {
                    usize::MAX
                };
                if self.pos >= len {
                    self.active = false;
                }
            },
            None => {
                self.active = false;
            },
        }
        value
    }

    /// One value per frame of `channels` samples, written to every channel of
    /// the frame; the buffer holds `len` samples in all.
    pub fn write_frames(&mut self, len: usize, channels: usize) -> (data: Vec<F32>)
        requires
            channels > 0,
        ensures
            data@ == Seq::new(
                len as nat,
                |i: int| old(self).after((i / channels as int) as nat).sample(),
            ),
            *final(self) == old(self).after(frame_count(len as int, channels as int)),
    {
        let mut data: Vec<F32> = Vec::new();
        let ghost start = *self;
        let ghost c = channels as int;
        let ghost want = Seq::new(len as nat, |i: int| start.after((i / c) as nat).sample());
        let ghost mut k: nat = 0;
        assert(0 * c == 0) by (nonlinear_arith);
        while data.len() < len
            invariant
                channels > 0,
                c == channels,
                *self == start.after(k),
                want == Seq::new(len as nat, |i: int| start.after((i / c) as nat).sample()),
                data@.len() <= len,
                data@ == want.take(data@.len() as int),
                data@.len() == k * c || (data@.len() == len && (k - 1) * c < len <= k * c),
                data@.len() < len ==> data@.len() == k * c,
            decreases len - data@.len(),
        {
            let ghost first = data@.len();
            let v: F32 = self.next_sample();
            let mut written: usize = 0;
            while written < channels && data.len() < len
                invariant
                    c == channels,
                    channels > 0,
                    first == k * c,
                    v == start.after(k).sample(),
                    written <= channels,
                    data@.len() == first + written,
                    data@.len() <= len,
                    want == Seq::new(len as nat, |i: int| start.after((i / c) as nat).sample()),
                    data@ == want.take(data@.len() as int),
                decreases channels - written,
            {
                proof {
                    let i = data@.len() as int;
                    vstd::arithmetic::div_mod::lemma_fundamental_div_mod_converse(
                        i,
                        c,
                        k as int,
                        written as int,
                    );
                    assert(want[i] == v);
                }
                data.push(v);
                written = written + 1;
                assert(data@ =~= want.take(data@.len() as int));
            }
            proof {
                assert((k + 1) * c == k * c + c) by (nonlinear_arith);
                k = (k + 1) as nat;
            }
        }
        proof {
            assert(want.take(len as int) =~= want);
            lemma_frame_count(len as int, c, k as int);
        }
        data
    }
}

/// A number whose exact value is within a finite bound is finite.
proof fn lemma_within_limit(a: F32, bound: int)
    requires
        positive(a),
        a.scaled() <= bound <= ACC_LIMIT * unit(),
    ensures
        a.finite(),
{
    let top = lemma_whole_on_grid(ACC_LIMIT as int);
    if a.mag() > top {
        lemma_grid_monotone(top, a.mag());
    }
}

/// Less than one more than the limit rounds to the limit at most.
proof fn lemma_limit_absorbs(acc: F32, step: F32)
    requires
        positive(acc),
        acc.scaled() < unit(),
        positive(step),
        step.scaled() <= ACC_LIMIT * unit(),
        acc.finite(),
        step.finite(),
    ensures
        acc.add_spec(step).le_spec(F32::of_int(ACC_LIMIT as int)),
{
    let u = unit();
    let limit = F32::of_int(ACC_LIMIT as int);
    lemma_of_int_exact(ACC_LIMIT as int);
    lemma_of_int_monotone(0, ACC_LIMIT as int);
    lemma_pow2_pos(149);
    let sum = acc.scaled() + step.scaled();
    if sum <= ACC_LIMIT * u {
        lemma_add_order(acc, step, limit);
    } else {
        let p = lemma_limit_on_grid();
        lemma_grid_step(p - 1);
        lemma_rounded(sum, 1, p);
        lemma_add_is_rounded(acc, step);
    }
}

/// One more than a number up to the limit is up to the limit still.
pub proof fn lemma_limit_absorbs_one(a: F32)
    requires
        positive(a),
        a.finite(),
        a.scaled() <= ACC_LIMIT * unit(),
    ensures
        a.add_spec(F32::of_int(1)).le_spec(F32::of_int(ACC_LIMIT as int)),
{
    let u = unit();
    let limit = F32::of_int(ACC_LIMIT as int);
    lemma_of_int_exact(1);
    lemma_of_int_exact(ACC_LIMIT as int);
    lemma_of_int_monotone(0, ACC_LIMIT as int);
    lemma_of_int_monotone(0, 1);
    lemma_pow2_pos(149);
    let sum = a.scaled() + u;
    if sum <= ACC_LIMIT * u {
        lemma_add_order(a, F32::of_int(1), limit);
    } else {
        let p = lemma_limit_on_grid();
        lemma_grid_step(p - 1);
        lemma_rounded(sum, 1, p);
        lemma_add_is_rounded(a, F32::of_int(1));
    }
}

/// The single after the limit is two above it.
proof fn lemma_limit_on_grid() -> (p: int)
    ensures
        p == F32::of_int(ACC_LIMIT as int).mag(),
        0 < p < INF_MAG,
        p % 2 == 0,
        grid(p) == ACC_LIMIT * unit(),
        grid(p + 1) == (ACC_LIMIT + 2) * unit(),
{
    let u = unit();
    lemma2_to64();
    lemma_grid_linear(150, 0x80_0000);
    lemma_grid_linear(150, 0x80_0001);
    lemma_pow2_adds(1, 149);
    lemma_of_int_exact(ACC_LIMIT as int);
    lemma_of_int_monotone(0, ACC_LIMIT as int);
    let p: int = 0x4b80_0000;
    assert(0x80_0000 * pow2(150) == 0x100_0000 * u) by (nonlinear_arith)
        requires
            pow2(150) == 2 * u,
    ;
    assert(0x80_0001 * pow2(150) == 0x100_0002 * u) by (nonlinear_arith)
        requires
            pow2(150) == 2 * u,
    ;
    lemma_grid_rounds_to_itself(p);
    lemma_scaled_back(F32::of_int(ACC_LIMIT as int));
    p
}

/// A sum of numbers that are not below zero is not below zero.
proof fn lemma_sum_positive(a: F32, b: F32)
    requires
        positive(a),
        positive(b),
        a.finite(),
        b.finite(),
    ensures
        positive(a.add_spec(b)),
{
    reveal(F32::add_spec);
    assert(grid(0) == 0);
    if a.mag() > 0 {
        lemma_grid_monotone(0, a.mag());
    }
    if b.mag() > 0 {
        lemma_grid_monotone(0, b.mag());
    }
    lemma_rounded_is_nearest(a.scaled() + b.scaled(), 1);
}

/// How many frames a buffer holds, the last one perhaps cut short.
pub open spec fn frame_count(len: int, channels: int) -> nat {
    ((len + channels - 1) / channels) as nat
}

proof fn lemma_frame_count(len: int, channels: int, k: int)
    requires
        channels > 0,
        len >= 0,
        k >= 0,
        len == k * channels || (k - 1) * channels < len <= k * channels,
    ensures
        frame_count(len, channels) == k,
{
    assert((k - 1) * channels == k * channels - channels) by (nonlinear_arith);
    let r = len + channels - 1 - k * channels;
    vstd::arithmetic::div_mod::lemma_fundamental_div_mod_converse(
        len + channels - 1,
        channels,
        k,
        r,
    );
}

/// What the worker does next about a request.
#[derive(Debug, Clone, Copy, PartialEq, Eq, Structural)]
pub enum WorkerAction {
    /// Open the requested device. On success ask again; on failure the request
    /// is over.
    Open,
    /// Begin to play on the open stream.
    Begin,
}

/// What an alert stream was last opened for, and how that went. The worker
/// opens and closes the stream itself as it is told.
pub struct Worker {
    /// A stream is open.
    pub open: bool,
    /// The device name the current stream was opened for; `None` (with a
    /// stream open) means "the default device".
    pub open_for: Option<String>,
    pub out_rate: u32,
    /// A failure has been logged and no open has succeeded since.
    pub error_logged: bool,
    /// Set with a short human message on an open/build failure, cleared on
    /// the next successful open.
    pub error: Option<&'static str>,
}

/// The text of an optional name.
pub open spec fn name_text(name: Option<String>) -> Option<Seq<char>> {
    match name {
        Some(s) => Some(s@),
        None => None,
    }
}

fn same_name(a: &Option<String>, b: &Option<String>) -> (r: bool)
    ensures
        r == (name_text(*a) == name_text(*b)),
{
    match (a, b) {
        (Some(x), Some(y)) => *x == *y,
        (None, None) => true,
        _ => false,
    }
}

fn copy_name(name: &Option<String>) -> (r: Option<String>)
    ensures
        name_text(r) == name_text(*name),
{
    match name {
        Some(s) => Some(s.clone()),
        None => None,
    }
}

impl Worker {
    pub fn new() -> (r: Worker)
        ensures
            !r.open,
            r.open_for is None,
            r.out_rate == 0,
            !r.error_logged,
            r.error is None,
    {
        Worker { open: false, open_for: None, out_rate: 0, error_logged: false, error: None }
    }

    /// A request needs a stream to be opened first: none is open, or the open
    /// one is for another device.
    pub open spec fn reopens(self, device_name: Option<String>) -> bool {
        !self.open || name_text(self.open_for) != name_text(device_name)
    }

    pub fn need_reopen(&self, req: &PlayRequest) -> (r: bool)
        ensures
            r == self.reopens(req.device_name),
    {
        !self.open || !same_name(&self.open_for, &req.device_name)
    }

    /// The stream for a request was opened, at the given output rate.
    pub fn opened(&mut self, req: &PlayRequest, out_rate: u32)
        ensures
            final(self).open,
            name_text(final(self).open_for) == name_text(req.device_name),
            final(self).out_rate == out_rate,
            !final(self).error_logged,
            final(self).error is None,
            !final(self).reopens(req.device_name),
    {
        self.open = true;
        self.open_for = copy_name(&req.device_name);
        self.out_rate = out_rate;
        self.error_logged = false;
        self.error = None;
    }

    /// The stream could not be opened; returns whether to log it. A failure is
    /// logged once, not every request, until a subsequent open succeeds.
    pub fn open_failed(&mut self) -> (log: bool)
        ensures
            log == !old(self).error_logged,
            final(self).error_logged,
            final(self).error == Some("Couldn't open the output device"),
            !final(self).open,
            final(self).open_for is None,
            final(self).out_rate == old(self).out_rate,
    {
        let log: bool = !self.error_logged;
        self.error_logged = true;
        self.error = Some("Couldn't open the output device");
        self.open = false;
        self.open_for = None;
        log
    }

    /// What to do about a request: open the stream it needs, and then ask
    /// again; or play it on the one that is open.
    pub fn on_request(&self, req: &PlayRequest) -> (a: WorkerAction)
        ensures
            a == (if self.reopens(req.device_name) {
                WorkerAction::Open
            } else {
                WorkerAction::Begin
            }),
    {
        if self.need_reopen(req) {
            WorkerAction::Open
        } else {
            WorkerAction::Begin
        }
    }

    /// The playback of a request at an output rate: from the top.
    pub open spec fn started(req: PlayRequest, out_rate: u32) -> Playback {
        Playback {
            samples: req.samples,
            volume: req.volume,
            step: F32::of_int(req.source_rate as int).div_spec(F32::of_int(out_rate as int)),
            acc: F32::of_int(0),
            pos: 0,
            active: true,
        }
    }

    /// Handles a request. `opened` is how opening the stream it needs went, if
    /// one is needed: the output rate, or `None` for a failure. Unless that
    /// failed, the request replaces what is playing. Returns whether to log a
    /// failure.
    pub fn handle(&mut self, req: PlayRequest, opened: Option<u32>, playback: &mut Playback) -> (log:
        bool)
        ensures
            !old(self).reopens(req.device_name) ==> {
                &&& !log
                &&& *final(self) == *old(self)
                &&& *final(playback) == Self::started(req, old(self).out_rate)
            },
            old(self).reopens(req.device_name) ==> match opened {
                Some(out_rate) => {
                    &&& !log
                    &&& final(self).open
                    &&& name_text(final(self).open_for) == name_text(req.device_name)
                    &&& final(self).out_rate == out_rate
                    &&& !final(self).error_logged
                    &&& final(self).error is None
                    &&& *final(playback) == Self::started(req, out_rate)
                },
                None => {
                    &&& log == !old(self).error_logged
                    &&& !final(self).open
                    &&& final(self).open_for is None
                    &&& final(self).out_rate == old(self).out_rate
                    &&& final(self).error_logged
                    &&& final(self).error == Some("Couldn't open the output device")
                    &&& *final(playback) == *old(playback)
                },
            },
    {
        if self.need_reopen(&req) {
            match opened {
                Some(out_rate) => self.opened(&req, out_rate),
                None => {
                    return self.open_failed();
                },
            }
        }
        self.begin(req, playback);
        false
    }

    /// Starts a request on the open stream, from the top.
    pub fn begin(&self, req: PlayRequest, playback: &mut Playback)
        ensures
            *final(playback) == Self::started(req, self.out_rate),
    {
        let step: F32 = F32::from_u32(req.source_rate).div(F32::from_u32(self.out_rate));
        playback.start(req.samples, req.volume, step);
    }

    /// Called after 10s with no request; returns whether to close the stream.
    /// It is closed only if nothing is currently playing — a long alert sound
    /// must not be cut off by the idle timer racing its own playback.
    pub fn on_idle_timeout(&mut self, playing: bool) -> (close: bool)
        ensures
            close == !playing,
            playing ==> *final(self) == *old(self),
            !playing ==> *final(self) == (Worker { open: false, open_for: None, ..*old(self) }),
    {
        if !playing {
            self.open = false;
            self.open_for = None;
        }
        !playing
    }

    /// The last open's failure, if it failed.
    pub fn last_error(&self) -> (r: Option<&'static str>)
        ensures
            r == self.error,
    {
        self.error
    }
}

/// What is counted off an ordinary accumulator is its whole part, and what is
/// left is its fraction, exactly.
pub proof fn law_the_whole_part_is_counted_off(a: F32)
    requires
        positive(a),
        a.scaled() <= ACC_LIMIT * unit(),
    ensures
        counted(a) matches Some((k, rest)) && {
            &&& k == a.scaled() / unit()
            &&& positive(rest)
            &&& rest.scaled() == a.scaled() % unit()
        },
    decreases rank(a),
{
    let u = unit();
    lemma_pow2_pos(149);
    lemma_of_int_exact(1);
    lemma_grid_step(a.mag());
    if due(a) {
        let less = one_off(a);
        lemma_minus_one_exact(a);
        lemma_scaled_order(less, a);
        law_the_whole_part_is_counted_off(less);
        vstd::arithmetic::div_mod::lemma_fundamental_div_mod(less.scaled(), u);
        vstd::arithmetic::div_mod::lemma_mod_bound(less.scaled(), u);
        let q = less.scaled() / u;
        assert(a.scaled() == (q + 1) * u + less.scaled() % u) by (nonlinear_arith)
            requires
                less.scaled() == u * q + less.scaled() % u,
                less.scaled() == a.scaled() - u,
        ;
        vstd::arithmetic::div_mod::lemma_fundamental_div_mod_converse(
            a.scaled(),
            u,
            q + 1,
            less.scaled() % u,
        );
    } else {
        vstd::arithmetic::div_mod::lemma_fundamental_div_mod_converse(
            a.scaled(),
            u,
            0,
            a.scaled(),
        );
    }
}

/// No ordinary rate cuts a sound short: with a step up to 2^24 and less than one
/// in the accumulator, the counting ends, and less than one is left for the
/// next tick.
pub proof fn law_ordinary_steps_are_counted(acc: F32, step: F32)
    requires
        positive(acc),
        acc.scaled() < unit(),
        positive(step),
        step.scaled() <= ACC_LIMIT * unit(),
    ensures
        counted(ticked(acc, step)) matches Some((k, rest)) && positive(rest) && rest.scaled()
            < unit(),
{
    let u = unit();
    lemma_pow2_pos(149);
    lemma_of_int_exact(ACC_LIMIT as int);
    lemma_within_limit(acc, u);
    lemma_within_limit(step, ACC_LIMIT * u);
    lemma_limit_absorbs(acc, step);
    lemma_sum_positive(acc, step);
    let a = ticked(acc, step);
    law_the_whole_part_is_counted_off(a);
    vstd::arithmetic::div_mod::lemma_mod_bound(a.scaled(), u);
}

/// Once nothing is left to play, there is silence for good.
pub proof fn law_silence_is_permanent(pb: Playback, n: nat)
    requires
        !pb.sounding(),
    ensures
        pb.after(n).sample() == (F32 { bits: 0 }),
        !pb.after(n).sounding(),
        n > 0 ==> !pb.after(n).active,
    decreases n,
{
    if n > 0 {
        law_silence_is_permanent(pb, (n - 1) as nat);
    }
}

/// At equal rates a sound is played as it is: each tick gives the next sample,
/// scaled by the volume, and after the last one there is silence.
pub proof fn law_equal_rates_play_every_sample_once(pb: Playback, n: nat)
    requires
        pb.step == F32::of_int(1),
        pb.acc == F32::of_int(0),
        pb.pos == 0,
        pb.active,
    ensures
        pb.after(n).sample() == (if n < pb.buffer().len() {
            mixed(pb.buffer()[n as int], pb.volume)
        } else {
            F32 { bits: 0 }
        }),
        n < pb.buffer().len() ==> pb.after(n) == (Playback { pos: n as usize, ..pb }),
        n >= pb.buffer().len() ==> !pb.after(n).sounding(),
    decreases n,
{
    assert((*pb.samples).len() == pb.buffer().len());
    if n > 0 {
        law_equal_rates_play_every_sample_once(pb, (n - 1) as nat);
        if n - 1 < pb.buffer().len() {
            lemma_unit_step();
        }
    }
}

/// A step of one is counted off whole.
proof fn lemma_unit_step()
    ensures
        counted(ticked(F32::of_int(0), F32::of_int(1))) == Some((1nat, F32::of_int(0))),
{
    let u = unit();
    lemma_pow2_pos(149);
    lemma_int_add(0, 1);
    lemma_of_int_exact(1);
    lemma_of_int_monotone(0, 1);
    lemma_of_int_zero();
    law_the_whole_part_is_counted_off(F32::of_int(1));
    vstd::arithmetic::div_mod::lemma_fundamental_div_mod_converse(1 * u, u, 1, 0);
    let rest = (counted(F32::of_int(1))->0).1;
    assert(grid(0) == 0);
    if rest.mag() > 0 {
        lemma_grid_monotone(0, rest.mag());
    }
}

/// A source slower than the output is never skipped over: with a step below
/// one, a tick moves on by one position at most.
pub proof fn law_a_slow_source_is_not_skipped(acc: F32, step: F32)
    requires
        positive(acc),
        acc.lt_spec(F32::of_int(1)),
        positive(step),
        step.lt_spec(F32::of_int(1)),
    ensures
        counted(ticked(acc, step)) matches Some((k, _)) && k <= 1,
{
    let u = unit();
    lemma_pow2_pos(149);
    let one = F32::of_int(1);
    lemma_of_int_exact(1);
    lemma_of_int_monotone(1, 1);
    lemma_one_and_two();
    let below = F32 { bits: 0x3fff_ffff };
    lemma_scaled_order(acc, one);
    lemma_scaled_order(step, one);
    assert(acc.mag() <= 0x3f7f_ffff && step.mag() <= 0x3f7f_ffff);
    if acc.mag() < 0x3f7f_ffff {
        lemma_grid_monotone(acc.mag(), 0x3f7f_ffff);
    }
    if step.mag() < 0x3f7f_ffff {
        lemma_grid_monotone(step.mag(), 0x3f7f_ffff);
    }
    lemma_add_order(acc, step, below);
    let a = ticked(acc, step);
    lemma_sum_positive(acc, step);
    lemma_grid_step(a.mag());
    law_the_whole_part_is_counted_off(a);
    vstd::arithmetic::div_mod::lemma_fundamental_div_mod(a.scaled(), u);
    vstd::arithmetic::div_mod::lemma_mod_bound(a.scaled(), u);
    let q = a.scaled() / u;
    assert(0 <= q <= 1) by (nonlinear_arith)
        requires
            a.scaled() == u * q + a.scaled() % u,
            0 <= a.scaled() % u < u,
            0 <= a.scaled() < 2 * u,
            u > 0,
    ;
}

/// The patterns of one and of the numbers just below one and two.
proof fn lemma_one_and_two()
    ensures
        F32::of_int(1).mag() == 0x3f80_0000,
        grid(0x3f80_0000) == unit(),
        2 * grid(0x3f7f_ffff) == grid(0x3fff_ffff),
        grid(0x3fff_ffff) < 2 * unit(),
{
    lemma2_to64();
    // 1 = 2^23 * 2^126, and the two neighbours are 2^24 - 1 steps of 2^125 and 2^126.
    lemma_grid_linear(126, 0x80_0000);
    lemma_grid_linear(125, 0xff_ffff);
    lemma_grid_linear(126, 0xff_ffff);
    lemma_pow2_adds(23, 126);
    lemma_pow2_adds(1, 125);
    lemma_pow2_pos(126);
    lemma_of_int_exact(1);
    lemma_of_int_monotone(1, 1);
    lemma_grid_rounds_to_itself(0x3f80_0000);
    lemma_scaled_back(F32::of_int(1));
}

/// What is played never wraps and is never louder than its source: whatever the
/// volume, a mixed sample lies within full scale, and is at most as large in
/// size as the sample. (Magnitude patterns order sizes.)
pub proof fn law_mixing_stays_within_full_scale(sample: F32, volume: F32)
    requires
        sample.finite(),
    ensures
        F32::of_int(-1).le_spec(mixed(sample, volume)),
        mixed(sample, volume).le_spec(F32::of_int(1)),
        mixed(sample, volume).mag() <= sample.mag(),
{
    lemma_minus_one_below_one();
    lemma_of_int_exact(0);
    lemma_of_int_exact(1);
    lemma_of_int_exact(-1);
    lemma_of_int_monotone(0, 1);
    lemma_of_int_zero();
    let one = F32::of_int(1);
    let v = audible(volume);
    lemma_scaled_order(F32::of_int(0), v);
    lemma_scaled_order(v, one);
    assert(v.finite());
    let x = sample.mul_spec(v);
    lemma_mul_shrinks(sample, v);
    lemma_mul_defined(sample, v);
    lemma_scaled_order(one, x);
    lemma_scaled_order(x, F32::of_int(-1));
    lemma_minus_one_is_one_in_size();
}

proof fn lemma_minus_one_is_one_in_size()
    ensures
        F32::of_int(-1).mag() == F32::of_int(1).mag(),
        F32::of_int(-1).sign(),
{
    reveal(F32::of_int);
    lemma_rounded_is_nearest(unit(), 1);
    lemma_pow2_pos(149);
}

/// What is heard of a sample: the sample times the volume, the volume limited to
/// 0..=1 (silence if it is no number) and the product to -1..=1. With a volume
/// and a sample in those ranges it is the plain product.
pub proof fn law_a_sample_is_scaled_by_the_volume(sample: F32, volume: F32)
    ensures
        ({
            let zero = F32::of_int(0);
            let one = F32::of_int(1);
            let set = if volume.nan() || volume.lt_spec(zero) {
                zero
            } else if one.lt_spec(volume) {
                one
            } else {
                volume
            };
            let product = sample.mul_spec(set);
            &&& one.lt_spec(product) ==> mixed(sample, volume) == one
            &&& product.lt_spec(F32::of_int(-1)) ==> mixed(sample, volume) == F32::of_int(-1)
            &&& !one.lt_spec(product) && !product.lt_spec(F32::of_int(-1)) ==> mixed(sample, volume)
                == product
            &&& zero.le_spec(volume) && volume.le_spec(one) && F32::of_int(-1).le_spec(sample)
                && sample.le_spec(one) ==> mixed(sample, volume) == sample.mul_spec(volume)
        }),
{
    lemma_minus_one_below_one();
    lemma_of_int_exact(-1);
    lemma_of_int_exact(0);
    lemma_of_int_exact(1);
    vstd::arithmetic::power2::lemma_pow2_pos(149);
    let zero = F32::of_int(0);
    let one = F32::of_int(1);
    if zero.le_spec(volume) && volume.le_spec(one) && F32::of_int(-1).le_spec(sample)
        && sample.le_spec(one) {
        lemma_scaled_order(zero, volume);
        lemma_scaled_order(volume, one);
        lemma_scaled_order(sample, one);
        lemma_scaled_order(F32::of_int(-1), sample);
        lemma_of_int_zero();
        lemma_of_int_monotone(0, 1);
        lemma_minus_one_is_one_in_size();
        lemma_mul_shrinks(sample, volume);
        let x = sample.mul_spec(volume);
        lemma_scaled_order(x, one);
        lemma_scaled_order(F32::of_int(-1), x);
        lemma_mul_defined(sample, volume);
    }
}

/// One tick of playback at an ordinary step, with less than one in the
/// accumulator: position and accumulator together move on by the step, but for
/// one rounding.
proof fn lemma_tick(acc: F32, step: F32) -> (r: (nat, F32))
    requires
        positive(acc),
        acc.scaled() < unit(),
        positive(step),
        step.scaled() <= 0x100_0000 * unit(),
    ensures
        counted(ticked(acc, step)) == Some(r),
        positive(r.1),
        0 <= r.1.scaled() < unit(),
        0 <= acc.scaled(),
        0x100_0000 * ((r.0 * unit() + r.1.scaled()) - (acc.scaled() + step.scaled()))
            <= acc.scaled() + step.scaled(),
        0x100_0000 * ((acc.scaled() + step.scaled()) - (r.0 * unit() + r.1.scaled()))
            <= acc.scaled() + step.scaled(),
{
    let u = unit();
    lemma_pow2_pos(149);
    lemma_of_int_exact(ACC_LIMIT as int);
    lemma_within_limit(acc, u);
    lemma_within_limit(step, ACC_LIMIT * u);
    lemma_limit_absorbs(acc, step);
    lemma_sum_positive(acc, step);
    let a = ticked(acc, step);
    lemma_within_limit(a, ACC_LIMIT * u);
    lemma_add_error(acc, step);
    law_the_whole_part_is_counted_off(a);
    vstd::arithmetic::div_mod::lemma_fundamental_div_mod(a.scaled(), u);
    vstd::arithmetic::div_mod::lemma_mod_bound(a.scaled(), u);
    lemma_grid_step(acc.mag());
    lemma_grid_step(a.mag());
    vstd::arithmetic::div_mod::lemma_div_pos_is_pos(a.scaled(), u);
    let r = counted(a)->0;
    let q = a.scaled() / u;
    assert(u * q == q * u) by (nonlinear_arith);
    r
}

/// Playback keeps time at every step, from half a sample a tick and less to many:
/// while the sound goes on, tick `n` plays the source sample at the read
/// position, at the volume; and the read position is the whole part of `n`
/// steps, but for a rounding of 2^-24 of a step and a sample with every tick.
pub proof fn law_playback_keeps_time(pb: Playback, n: nat)
    requires
        pb.active,
        pb.pos == 0,
        pb.acc == F32::of_int(0),
        positive(pb.step),
        pb.step.scaled() <= 0x100_0000 * unit(),
        pb.after(n).sounding(),
    ensures
        ({
            let at = pb.after(n);
            let reached = at.pos * unit() + at.acc.scaled();
            let due = n * pb.step.scaled();
            &&& at.buffer() == pb.buffer() && at.volume == pb.volume && at.step == pb.step
            &&& at.pos < pb.buffer().len()
            &&& at.sample() == mixed(pb.buffer()[at.pos as int], pb.volume)
            &&& 0 <= at.acc.scaled() < unit()
            &&& 0x100_0000 * (reached - due) <= n * (pb.step.scaled() + unit())
            &&& 0x100_0000 * (due - reached) <= n * (pb.step.scaled() + unit())
        }),
{
    lemma_position(pb, n);
}

proof fn lemma_position(pb: Playback, n: nat)
    requires
        pb.active,
        pb.pos == 0,
        pb.acc == F32::of_int(0),
        positive(pb.step),
        pb.step.scaled() <= 0x100_0000 * unit(),
        pb.after(n).sounding(),
    ensures
        ({
            let at = pb.after(n);
            let reached = at.pos * unit() + at.acc.scaled();
            let due = n * pb.step.scaled();
            &&& at.samples == pb.samples && at.volume == pb.volume && at.step == pb.step
            &&& positive(at.acc)
            &&& 0 <= at.acc.scaled() < unit()
            &&& 0x100_0000 * (reached - due) <= n * (pb.step.scaled() + unit())
            &&& 0x100_0000 * (due - reached) <= n * (pb.step.scaled() + unit())
        }),
    decreases n,
{
    let u = unit();
    let s = pb.step.scaled();
    lemma_pow2_pos(149);
    if n == 0 {
        lemma_of_int_zero();
        assert(grid(0) == 0);
        assert(0 * u == 0 && 0 * s == 0 && 0 * (s + u) == 0) by (nonlinear_arith);
    } else {
        let m = (n - 1) as nat;
        let before = pb.after(m);
        assert(before.sounding());
        lemma_position(pb, m);
        let (k, rest) = lemma_tick(before.acc, before.step);
        let at = pb.after(n);
        assert((*pb.samples).len() == pb.buffer().len());
        assert(at.pos == before.pos + k);
        assert(at.pos * u == before.pos * u + k * u) by (nonlinear_arith)
            requires
                at.pos == before.pos + k,
        ;
        assert(n * s == m * s + s && n * (s + u) == m * (s + u) + s + u) by (nonlinear_arith)
            requires
                n == m + 1,
        ;
    }
}

/// No sound is cut short: as long as `n` steps, roundings included, do not reach
/// the end of the buffer, the sound goes on.
pub proof fn law_a_sound_is_played_to_its_end(pb: Playback, n: nat)
    requires
        pb.active,
        pb.pos == 0,
        pb.acc == F32::of_int(0),
        positive(pb.step),
        pb.step.scaled() <= 0x100_0000 * unit(),
        0x100_0000 * (n * pb.step.scaled()) + n * (pb.step.scaled() + unit()) < 0x100_0000 * (
        pb.buffer().len() * unit()),
    ensures
        pb.after(n).sounding(),
    decreases n,
{
    let u = unit();
    let s = pb.step.scaled();
    lemma_pow2_pos(149);
    assert((*pb.samples).len() == pb.buffer().len());
    lemma_grid_step(pb.step.mag());
    if n == 0 {
        assert(0 * s == 0 && 0 * (s + u) == 0) by (nonlinear_arith);
        if pb.buffer().len() == 0 {
            assert(0 * u == 0) by (nonlinear_arith);
        }
    } else {
        let m = (n - 1) as nat;
        assert(n * s == m * s + s && n * (s + u) == m * (s + u) + s + u) by (nonlinear_arith)
            requires
                n == m + 1,
        ;
        law_a_sound_is_played_to_its_end(pb, m);
        lemma_position(pb, m);
        let before = pb.after(m);
        let (k, rest) = lemma_tick(before.acc, before.step);
        let len = pb.buffer().len() as int;
        let p = before.pos + k;
        assert(p * u == before.pos * u + k * u) by (nonlinear_arith)
            requires
                p == before.pos + k,
        ;
        assert(p < len) by (nonlinear_arith)
            requires
                p * u < len * u,
                u > 0,
        ;
    }
}

/// A request is played from its first sample, at its own volume, at the step that
/// its rate has against the stream's: the quotient of the two, rounded.
pub proof fn law_a_request_plays_from_the_top(req: PlayRequest, out_rate: u32)
    ensures
        ({
            let pb = Worker::started(req, out_rate);
            &&& pb.buffer() == (*req.samples)@
            &&& pb.volume == req.volume
            &&& pb.step == F32::of_int(req.source_rate as int).div_spec(
                F32::of_int(out_rate as int),
            )
            &&& pb.active && pb.pos == 0 && pb.acc == F32::of_int(0)
            &&& (*req.samples)@.len() > 0 ==> pb.sample() == mixed((*req.samples)@[0], req.volume)
        }),
{
}

/// With equal rates the step is one, so each tick plays the next sample.
pub proof fn law_equal_rates_are_a_step_of_one(req: PlayRequest, n: nat)
    requires
        0 < req.source_rate <= 0x100_0000,
        n < (*req.samples)@.len(),
    ensures
        Worker::started(req, req.source_rate).after(n).sample() == mixed(
            (*req.samples)@[n as int],
            req.volume,
        ),
{
    lemma_int_ratio(req.source_rate as int, req.source_rate as int, 1);
    law_equal_rates_play_every_sample_once(Worker::started(req, req.source_rate), n);
}

/// A step taken off is a sample moved on: whatever the step, a tick that has an
/// end to its counting moves on by as many samples as ones were taken off the
/// accumulator, and the sound is over exactly when that passes the last sample.
pub proof fn law_a_tick_moves_on_by_what_is_counted(pb: Playback)
    requires
        pb.sounding(),
    ensures
        pb.sample() == mixed(pb.buffer()[pb.pos as int], pb.volume),
        counted(pb.acc.add_spec(pb.step)) matches Some((k, rest)) ==> {
            let after = pb.next();
            &&& after.acc == rest
            &&& after.samples == pb.samples && after.volume == pb.volume && after.step == pb.step
            &&& after.sounding() <==> pb.pos + k < pb.buffer().len()
            &&& after.active <==> after.sounding()
            &&& after.sounding() ==> after.pos == pb.pos + k
        },
        counted(pb.acc.add_spec(pb.step)) is None ==> !pb.next().active,
{
    assert((*pb.samples).len() == pb.buffer().len());
}

/// What an output device is given never exceeds full scale, and within it is the
/// sample itself.
pub proof fn law_device_samples_are_limited_to_full_scale(v: F32)
    ensures
        F32::of_int(1).lt_spec(v) ==> limited(v) == F32::of_int(1),
        v.lt_spec(F32::of_int(-1)) ==> limited(v) == F32::of_int(-1),
        F32::of_int(-1).le_spec(v) && v.le_spec(F32::of_int(1)) ==> limited(v) == v,
{
    lemma_minus_one_below_one();
}

/// An open stream is reused for its own device and for no other: a request needs
/// another one opened exactly if none is open, or the one open was opened for a
/// device of another name, the default device being none.
pub proof fn law_a_stream_is_reused_for_its_device(w: Worker, device: Option<String>)
    ensures
        w.reopens(device) <==> !w.open || match (w.open_for, device) {
            (None, None) => false,
            (Some(a), Some(b)) => a@ != b@,
            (None, Some(_)) => true,
            (Some(_), None) => true,
        },
{
}

/// Ones are taken off one by one: below one nothing is counted and all is left;
/// from one up, one more is counted than of one less; and where a one taken off
/// is lost there is no end to it.
pub proof fn law_ones_are_taken_off_one_by_one(a: F32)
    ensures
        ({
            let one = F32::of_int(1);
            let less = a.sub_spec(one);
            &&& !one.le_spec(a) ==> counted(a) == Some((0nat, a))
            &&& one.le_spec(a) && !less.lt_spec(a) ==> counted(a) is None
            &&& one.le_spec(a) && less.lt_spec(a) ==> match counted(less) {
                Some((k, rest)) => counted(a) == Some(((k + 1) as nat, rest)),
                None => counted(a) is None,
            }
        }),
{
    reveal_with_fuel(counted, 2);
}

/// A buffer takes as many ticks as it has frames, one that is cut short included.
pub proof fn law_every_frame_of_a_buffer_takes_a_tick(len: int, channels: int)
    requires
        len >= 0,
        channels > 0,
    ensures
        len <= frame_count(len, channels) * channels,
        len > (frame_count(len, channels) - 1) * channels,
        frame_count(len, channels) == 0 <==> len == 0,
{
    let x = len + channels - 1;
    vstd::arithmetic::div_mod::lemma_fundamental_div_mod(x, channels);
    vstd::arithmetic::div_mod::lemma_mod_bound(x, channels);
    vstd::arithmetic::div_mod::lemma_div_pos_is_pos(x, channels);
    let q = x / channels;
    let r = x % channels;
    assert(q * channels == channels * q && (q - 1) * channels == channels * q - channels)
        by (nonlinear_arith);
    assert(q == 0 ==> channels * q == 0) by (nonlinear_arith);
    assert(q >= 1 ==> channels * q >= channels) by (nonlinear_arith)
        requires
            channels > 0,
    ;
}

} // verus!
