//! From what a capture device delivers to mono frames at one rate.

#[allow(unused_imports)]
use vstd::arithmetic::power2::pow2;
use vstd::prelude::*;

#[allow(unused_imports)]
use crate::binary32::order::{
    lemma_add_error, lemma_add_order, lemma_div_monotone, lemma_grid_rounds_to_itself,
    lemma_int_add, lemma_int_ratio, lemma_int_sub, lemma_neg_scaled, lemma_of_int_exact,
    lemma_of_int_monotone, lemma_of_int_zero, lemma_rounded_cancels, lemma_rounded_is_nearest,
    lemma_rounded_monotone, lemma_sub_error, lemma_sub_order, lemma_sub_zero,
    lemma_whole_scaled_on_grid, lemma_zero_absorbs, positive, rank, unit,
};
#[allow(unused_imports)]
use crate::binary32::round::rounded;
#[allow(unused_imports)]
use crate::binary32::{
    grid, lemma_grid_linear, lemma_grid_monotone, lemma_grid_step, lemma_scaled_order, F32,
};
#[allow(unused_imports)]
use crate::engine::features::{law_an_average_takes_every_sample, mean, mean_of};
use crate::engine::{FRAME_SIZE, SAMPLE_RATE};

verus! {

/// Each group of one sample per channel, averaged. Samples short of a whole
/// group at the end are left out.
pub open spec fn mono_of(interleaved: Seq<F32>, channels: nat) -> Seq<F32> {
    Seq::new(
        interleaved.len() / channels,
        |i: int| mean_of(interleaved.subrange(i * channels, i * channels + channels)),
    )
}

/// Taking a step off an accumulator leaves less.
pub open spec fn shrinks(acc: F32, step: F32) -> bool {
    acc.sub_spec(step).lt_spec(acc)
}

/// How many whole steps are due: the step is taken off while it can be taken.
/// (A step of zero, from a device without a rate, can be taken forever, and
/// counts once.)
pub open spec fn due(acc: F32, step: F32) -> nat
    decreases rank(acc),
{
    proof {
        lemma_scaled_order(acc.sub_spec(step), acc);
    }
    if !step.le_spec(acc) {
        0
    } else if !shrinks(acc, step) {
        1
    } else {
        1 + due(acc.sub_spec(step), step)
    }
}

/// What is left of an accumulator once all whole steps are taken off.
pub open spec fn left(acc: F32, step: F32) -> F32
    decreases rank(acc),
{
    proof {
        lemma_scaled_order(acc.sub_spec(step), acc);
    }
    if !step.le_spec(acc) {
        acc
    } else if !shrinks(acc, step) {
        acc.sub_spec(step)
    } else {
        left(acc.sub_spec(step), step)
    }
}

/// The accumulator after `n` samples: each adds one, and all whole steps are
/// taken off.
pub open spec fn acc_after(acc: F32, step: F32, n: nat) -> F32
    decreases n,
{
    if n == 0 {
        acc
    } else {
        left(acc_after(acc, step, (n - 1) as nat).add_spec(F32::of_int(1)), step)
    }
}

/// How often sample `i` is emitted: as often as a whole step is due with it.
pub open spec fn copies(acc: F32, step: F32, i: int) -> nat {
    due(acc_after(acc, step, i as nat).add_spec(F32::of_int(1)), step)
}

/// A sample, again and again.
pub open spec fn repeated(x: F32, n: nat) -> Seq<F32> {
    Seq::new(n, |i: int| x)
}

/// What the first `n` samples emit.
pub open spec fn emitted(acc: F32, step: F32, samples: Seq<F32>, n: nat) -> Seq<F32>
    decreases n,
{
    if n == 0 {
        Seq::empty()
    } else {
        emitted(acc, step, samples, (n - 1) as nat) + repeated(
            samples[n - 1],
            copies(acc, step, n - 1),
        )
    }
}

/// A stream of samples cut into whole frames.
pub open spec fn frames_of(s: Seq<F32>) -> Seq<Seq<F32>> {
    Seq::new(
        s.len() / (FRAME_SIZE as nat),
        |i: int| s.subrange(i * FRAME_SIZE, i * FRAME_SIZE + FRAME_SIZE),
    )
}

/// What is left over after the last whole frame.
pub open spec fn rest_of(s: Seq<F32>) -> Seq<F32> {
    s.skip(FRAME_SIZE * (s.len() as int / FRAME_SIZE as int))
}

/// The builder between pushes.
pub struct Intake {
    pub channels: nat,
    /// Input samples per output sample.
    pub step: F32,
    pub acc: F32,
    /// The frame begun.
    pub partial: Seq<F32>,
}

impl Intake {
    pub open spec fn initial(input_rate: u32, channels: u16) -> Intake {
        Intake {
            channels: channels as nat,
            step: F32::of_int(input_rate as int).div_spec(F32::of_int(SAMPLE_RATE as int)),
            acc: F32 { bits: 0 },
            partial: Seq::empty(),
        }
    }

    /// The frame begun, and every sample that a push adds to it.
    pub open spec fn stream(self, interleaved: Seq<F32>) -> Seq<F32> {
        let mono = mono_of(interleaved, self.channels);
        self.partial + emitted(self.acc, self.step, mono, mono.len())
    }

    /// The frames that a push completes.
    pub open spec fn completes(self, interleaved: Seq<F32>) -> Seq<Seq<F32>> {
        frames_of(self.stream(interleaved))
    }

    /// The builder after a push.
    pub open spec fn next(self, interleaved: Seq<F32>) -> Intake {
        Intake {
            acc: acc_after(self.acc, self.step, interleaved.len() / self.channels),
            partial: rest_of(self.stream(interleaved)),
            ..self
        }
    }
}

/// The frames as sequences.
pub open spec fn contents(frames: Seq<Vec<F32>>) -> Seq<Seq<F32>> {
    frames.map_values(|v: Vec<F32>| v@)
}

/// Converts interleaved device samples into mono FRAME_SIZE frames at SAMPLE_RATE.
/// A device above that rate has samples left out, one below it has samples
/// repeated.
pub struct FrameBuilder {
    channels: usize,
    step: F32,
    acc: F32,
    frame: Vec<F32>,
    /// Room for converted samples, kept between pushes.
    scratch: Vec<F32>,
}

impl View for FrameBuilder {
    type V = Intake;

    closed spec fn view(&self) -> Intake {
        Intake {
            channels: self.channels as nat,
            step: self.step,
            acc: self.acc,
            partial: self.frame@,
        }
    }
}

impl FrameBuilder {
    /// There is a channel, and the frame begun is not yet whole.
    pub closed spec fn wf(self) -> bool {
        self.channels > 0 && self.frame@.len() < FRAME_SIZE
    }

    pub fn new(input_rate: u32, channels: u16) -> (r: FrameBuilder)
        ensures
            channels > 0 ==> r.wf(),
            r@ == Intake::initial(input_rate, channels),
    {
        FrameBuilder {
            channels: channels as usize,
            step: F32::from_u32(input_rate).div(F32::from_u32(SAMPLE_RATE)),
            acc: F32::from_bits(0),
            frame: Vec::with_capacity(FRAME_SIZE),
            scratch: Vec::new(),
        }
    }

    /// One sample of the stream.
    fn emit(&mut self, mono: F32, frames: &mut Vec<Vec<F32>>, Ghost(stream): Ghost<Seq<F32>>)
        requires
            old(self).wf(),
            old(self)@.partial == rest_of(stream),
            contents(old(frames)@) == frames_of(stream),
        ensures
            final(self).wf(),
            final(self)@ == (Intake { partial: rest_of(stream.push(mono)), ..old(self)@ }),
            contents(final(frames)@) == frames_of(stream.push(mono)),
    {
        self.frame.push(mono);
        proof {
            lemma_frames_of_push(stream, mono);
        }
        if self.frame.len() == FRAME_SIZE {
            let mut full: Vec<F32> = Vec::with_capacity(FRAME_SIZE);
            core::mem::swap(&mut full, &mut self.frame);
            frames.push(full);
            assert(contents(frames@) =~= contents(old(frames)@).push(full@));
        }
    }

    /// One mono sample of the device.
    fn push_mono(&mut self, mono: F32, frames: &mut Vec<Vec<F32>>, Ghost(stream): Ghost<Seq<F32>>)
        requires
            old(self).wf(),
            old(self)@.partial == rest_of(stream),
            contents(old(frames)@) == frames_of(stream),
        ensures
            final(self).wf(),
            final(self)@.channels == old(self)@.channels,
            final(self)@.step == old(self)@.step,
            final(self)@.acc == acc_after(old(self)@.acc, old(self)@.step, 1),
            ({
                let now = stream + repeated(mono, copies(old(self)@.acc, old(self)@.step, 0));
                &&& final(self)@.partial == rest_of(now)
                &&& contents(final(frames)@) == frames_of(now)
            }),
    {
        let ghost before = self@;
        let ghost start = before.acc.add_spec(F32::of_int(1));
        let ghost mut n: nat = 0;
        proof {
            reveal_with_fuel(acc_after, 2);
            assert(stream + repeated(mono, 0) =~= stream);
        }
        self.acc = self.acc.add(F32::from_i32(1));
        let mut more: bool = self.step.le(self.acc);
        while more
            invariant
                self.wf(),
                self@.channels == before.channels,
                self@.step == before.step,
                more ==> self@.step.le_spec(self@.acc),
                due(start, before.step) == n + (if more {
                    due(self@.acc, before.step)
                } else {
                    0
                }),
                left(start, before.step) == (if more {
                    left(self@.acc, before.step)
                } else {
                    self@.acc
                }),
                self@.partial == rest_of(stream + repeated(mono, n)),
                contents(frames@) == frames_of(stream + repeated(mono, n)),
            decreases (if more { 1int } else { 0int }), rank(self@.acc),
        {
            let rest: F32 = self.acc.sub(self.step);
            let smaller: bool = rest.lt(self.acc);
            proof {
                reveal_with_fuel(due, 2);
                reveal_with_fuel(left, 2);
                lemma_scaled_order(rest, self@.acc);
            }
            self.acc = rest;
            self.emit(mono, frames, Ghost(stream + repeated(mono, n)));
            proof {
                assert((stream + repeated(mono, n)).push(mono) =~= stream + repeated(mono, n + 1));
                n = n + 1;
            }
            more = smaller && self.step.le(self.acc);
        }
    }

    /// Feed interleaved samples; returns the frames that they complete. Nothing
    /// is allocated but the frames returned and the one begun next.
    pub fn push(&mut self, interleaved: &[F32]) -> (frames: Vec<Vec<F32>>)
        requires
            old(self).wf(),
        ensures
            final(self).wf(),
            final(self)@ == old(self)@.next(interleaved@),
            contents(frames@) == old(self)@.completes(interleaved@),
    {
        let ghost before = self@;
        let ghost samples = interleaved@;
        let ghost mono = mono_of(samples, before.channels);
        let mut frames: Vec<Vec<F32>> = Vec::new();
        let channels: usize = self.channels;
        let mut start: usize = 0;
        let ghost mut i: nat = 0;
        proof {
            lemma_short_stream(before.partial);
            assert(before.partial + emitted(before.acc, before.step, mono, 0) =~= before.partial);
            assert(contents(frames@) =~= frames_of(before.partial));
        }
        while interleaved.len() - start >= channels
            invariant
                self.wf(),
                samples == interleaved@,
                0 < channels == before.channels,
                mono == mono_of(samples, before.channels),
                start == i * channels,
                start <= samples.len(),
                i <= mono.len(),
                self@.channels == before.channels,
                self@.step == before.step,
                self@.acc == acc_after(before.acc, before.step, i),
                self@.partial == rest_of(
                    before.partial + emitted(before.acc, before.step, mono, i),
                ),
                contents(frames@) == frames_of(
                    before.partial + emitted(before.acc, before.step, mono, i),
                ),
            decreases samples.len() - start,
        {
            let end: usize = start + channels;
            proof {
                lemma_group_bounds(samples.len(), before.channels, i);
            }
            let m: F32 = mean(interleaved, start, end);
            let ghost stream = before.partial + emitted(before.acc, before.step, mono, i);
            assert(m == mono[i as int]);
            proof {
                lemma_acc_step(before.acc, before.step, i);
                assert(before.partial + emitted(before.acc, before.step, mono, (i + 1) as nat)
                    =~= stream + repeated(m, copies(before.acc, before.step, i as int)));
            }
            self.push_mono(m, &mut frames, Ghost(stream));
            start = end;
            proof {
                assert((i + 1) * channels == i * channels + channels) by (nonlinear_arith);
                i = (i + 1) as nat;
            }
        }
        proof {
            vstd::arithmetic::div_mod::lemma_fundamental_div_mod_converse(
                samples.len() as int,
                channels as int,
                i as int,
                samples.len() - start,
            );
            assert(i == mono.len());
        }
        frames
    }

    /// Feed signed 16-bit samples. Converted in room that is kept for the next
    /// time.
    pub fn push_i16(&mut self, data: &[i16]) -> (frames: Vec<Vec<F32>>)
        requires
            old(self).wf(),
        ensures
            final(self).wf(),
            final(self)@ == old(self)@.next(from_signed(data@)),
            contents(frames@) == old(self)@.completes(from_signed(data@)),
    {
        let mut samples: Vec<F32> = Vec::new();
        core::mem::swap(&mut samples, &mut self.scratch);
        samples.clear();
        let mut i: usize = 0;
        let scale: F32 = F32::from_i32(32768);
        assert(samples@ =~= from_signed(data@.take(0)));
        while i < data.len()
            invariant
                i <= data@.len(),
                scale == F32::of_int(32768),
                samples@ == from_signed(data@.take(i as int)),
            decreases data@.len() - i,
        {
            samples.push(F32::from_i32(data[i] as i32).div(scale));
            i = i + 1;
            assert(samples@ =~= from_signed(data@.take(i as int)));
        }
        assert(data@.take(i as int) =~= data@);
        let frames: Vec<Vec<F32>> = self.push(samples.as_slice());
        core::mem::swap(&mut samples, &mut self.scratch);
        frames
    }

    /// Feed unsigned 16-bit samples, whose middle is silence.
    pub fn push_u16(&mut self, data: &[u16]) -> (frames: Vec<Vec<F32>>)
        requires
            old(self).wf(),
        ensures
            final(self).wf(),
            final(self)@ == old(self)@.next(from_unsigned(data@)),
            contents(frames@) == old(self)@.completes(from_unsigned(data@)),
    {
        let mut samples: Vec<F32> = Vec::new();
        core::mem::swap(&mut samples, &mut self.scratch);
        samples.clear();
        let mut i: usize = 0;
        let scale: F32 = F32::from_i32(32768);
        assert(samples@ =~= from_unsigned(data@.take(0)));
        while i < data.len()
            invariant
                i <= data@.len(),
                scale == F32::of_int(32768),
                samples@ == from_unsigned(data@.take(i as int)),
            decreases data@.len() - i,
        {
            samples.push(F32::from_i32(data[i] as i32).sub(scale).div(scale));
            i = i + 1;
            assert(samples@ =~= from_unsigned(data@.take(i as int)));
        }
        assert(data@.take(i as int) =~= data@);
        let frames: Vec<Vec<F32>> = self.push(samples.as_slice());
        core::mem::swap(&mut samples, &mut self.scratch);
        frames
    }
}

/// Signed samples as shares of full scale.
pub open spec fn from_signed(data: Seq<i16>) -> Seq<F32> {
    data.map_values(|s: i16| F32::of_int(s as int).div_spec(F32::of_int(32768)))
}

/// Unsigned samples as shares of full scale around their middle.
pub open spec fn from_unsigned(data: Seq<u16>) -> Seq<F32> {
    data.map_values(
        |s: u16|
            F32::of_int(s as int).sub_spec(F32::of_int(32768)).div_spec(F32::of_int(32768)),
    )
}

/// A whole group fits between `i` groups and the end.
pub proof fn lemma_group_bounds(len: nat, channels: nat, i: nat)
    requires
        channels > 0,
        len - i * channels >= channels,
    ensures
        i < len / channels,
{
    if len / channels <= i {
        vstd::arithmetic::div_mod::lemma_fundamental_div_mod(len as int, channels as int);
        vstd::arithmetic::div_mod::lemma_mod_bound(len as int, channels as int);
        let q = len as int / channels as int;
        assert(channels * q <= i * channels) by (nonlinear_arith)
            requires
                q <= i,
                channels > 0,
        ;
    }
}

/// The accumulator after one more sample, from either end of the run.
proof fn lemma_acc_step(acc: F32, step: F32, n: nat)
    ensures
        acc_after(acc_after(acc, step, n), step, 1) == acc_after(acc, step, n + 1),
        copies(acc_after(acc, step, n), step, 0) == copies(acc, step, n as int),
{
    reveal_with_fuel(acc_after, 2);
}

/// A stream shorter than a frame holds none.
proof fn lemma_short_stream(s: Seq<F32>)
    requires
        s.len() < FRAME_SIZE,
    ensures
        frames_of(s) == Seq::<Seq<F32>>::empty(),
        rest_of(s) == s,
{
    assert(frames_of(s) =~= Seq::<Seq<F32>>::empty());
    assert(rest_of(s) =~= s);
}

/// One more sample either extends the frame begun or completes it.
proof fn lemma_frames_of_push(s: Seq<F32>, x: F32)
    ensures
        ({
            let begun = rest_of(s).push(x);
            &&& rest_of(s).len() < FRAME_SIZE
            &&& begun.len() < FRAME_SIZE ==> rest_of(s.push(x)) == begun && frames_of(s.push(x))
                == frames_of(s)
            &&& begun.len() == FRAME_SIZE ==> rest_of(s.push(x)) == Seq::<F32>::empty()
                && frames_of(s.push(x)) == frames_of(s).push(begun)
        }),
{
    let t = s.push(x);
    let q = s.len() as int / FRAME_SIZE as int;
    let begun = rest_of(s).push(x);
    if begun.len() < FRAME_SIZE {
        assert(t.len() as int / FRAME_SIZE as int == q);
        assert(rest_of(t) =~= begun);
        assert(frames_of(t) =~= frames_of(s)) by {
            assert forall|i: int| 0 <= i < q implies frames_of(t)[i] == frames_of(s)[i] by {
                assert(t.subrange(i * FRAME_SIZE, i * FRAME_SIZE + FRAME_SIZE) =~= s.subrange(
                    i * FRAME_SIZE,
                    i * FRAME_SIZE + FRAME_SIZE,
                ));
            }
        }
    } else {
        assert(t.len() as int / FRAME_SIZE as int == q + 1);
        assert(rest_of(t) =~= Seq::<F32>::empty());
        assert(frames_of(t) =~= frames_of(s).push(begun)) by {
            assert forall|i: int| 0 <= i < q + 1 implies frames_of(t)[i] == frames_of(s).push(
                begun,
            )[i] by {
                if i < q {
                    assert(t.subrange(i * FRAME_SIZE, i * FRAME_SIZE + FRAME_SIZE) =~= s.subrange(
                        i * FRAME_SIZE,
                        i * FRAME_SIZE + FRAME_SIZE,
                    ));
                } else {
                    assert(t.subrange(i * FRAME_SIZE, i * FRAME_SIZE + FRAME_SIZE) =~= begun);
                }
            }
        }
    }
}

/// Where a preferred name stands in a list: at its first exact occurrence.
pub open spec fn first_match(preferred: Seq<char>, available: Seq<String>, i: int) -> bool {
    &&& 0 <= i < available.len()
    &&& available[i]@ == preferred
    &&& forall|j: int| 0 <= j < i ==> (#[trigger] available[j])@ != preferred
}

/// Nothing in the list has the preferred name.
pub open spec fn no_match(preferred: Seq<char>, available: Seq<String>) -> bool {
    forall|j: int| 0 <= j < available.len() ==> (#[trigger] available[j])@ != preferred
}

/// Where a preferred device name lands in an enumerated list. `None` — no
/// preference, or a preference nothing matches (the device was unplugged since
/// it was configured) — means "use the system default". Matching is exact:
/// names are driver-supplied text, so a near-miss is a different device.
pub fn preferred_device_index(preferred: Option<&str>, available: &[String]) -> (r: Option<usize>)
    ensures
        preferred is None ==> r is None,
        preferred matches Some(name) ==> match r {
            Some(i) => first_match(name@, available@, i as int),
            None => no_match(name@, available@),
        },
{
    match preferred {
        None => None,
        Some(name) => {
            let wanted: String = name.to_owned();
            let mut i: usize = 0;
            while i < available.len()
                invariant
                    i <= available@.len(),
                    preferred == Some(name),
                    wanted@ == name@,
                    forall|j: int| 0 <= j < i ==> (#[trigger] available@[j])@ != name@,
                decreases available@.len() - i,
            {
                if available[i] == wanted {
                    return Some(i);
                }
                i = i + 1;
            }
            None
        },
    }
}

/// Which device to open.
#[derive(Debug, Clone, Copy, PartialEq, Eq, Structural)]
pub enum DeviceChoice {
    /// The one at this place of the enumerated list.
    Listed(usize),
    /// The system default.
    SystemDefault,
}

/// The device a preference resolves to, falling back to the system default
/// whenever the named one isn't present, or the devices could not be listed.
pub fn resolve_device(preferred: Option<&str>, listed: Option<&[String]>) -> (r: DeviceChoice)
    ensures
        match r {
            DeviceChoice::Listed(i) => {
                &&& preferred is Some
                &&& listed is Some
                &&& first_match(preferred->0@, listed->0@, i as int)
            },
            DeviceChoice::SystemDefault => {
                ||| preferred is None
                ||| listed is None
                ||| no_match(preferred->0@, listed->0@)
            },
        },
{
    match listed {
        Some(names) => match preferred_device_index(preferred, names) {
            Some(i) => DeviceChoice::Listed(i),
            None => DeviceChoice::SystemDefault,
        },
        None => DeviceChoice::SystemDefault,
    }
}

/// The frames do not depend on how the input is cut: pushing two runs of whole
/// groups one after the other is pushing them joined.
pub proof fn law_partial_input_carries_over(b: Intake, first: Seq<F32>, second: Seq<F32>)
    requires
        b.channels > 0,
        first.len() % b.channels == 0,
    ensures
        b.next(first).next(second) == b.next(first + second),
        b.completes(first) + b.next(first).completes(second) == b.completes(first + second),
{
    let ch = b.channels;
    let mono_a = mono_of(first, ch);
    let mono_b = mono_of(second, ch);
    lemma_mono_joined(first, second, ch);
    let mono = mono_of(first + second, ch);
    let mid = acc_after(b.acc, b.step, mono_a.len());
    lemma_emitted_joined(b.acc, b.step, mono_a, mono_b, mono_b.len());
    let out_a = emitted(b.acc, b.step, mono_a, mono_a.len());
    let out_b = emitted(mid, b.step, mono_b, mono_b.len());
    let a = b.partial + out_a;
    assert(b.stream(first + second) =~= a + out_b);
    lemma_frames_joined(a, out_b);
    assert(b.next(first).stream(second) == rest_of(a) + out_b);
}

proof fn lemma_mono_joined(a: Seq<F32>, b: Seq<F32>, ch: nat)
    requires
        ch > 0,
        a.len() % ch == 0,
    ensures
        mono_of(a + b, ch) == mono_of(a, ch) + mono_of(b, ch),
{
    let s = a + b;
    let na = a.len() as int / ch as int;
    let nb = b.len() as int / ch as int;
    vstd::arithmetic::div_mod::lemma_fundamental_div_mod(a.len() as int, ch as int);
    vstd::arithmetic::div_mod::lemma_fundamental_div_mod(b.len() as int, ch as int);
    vstd::arithmetic::div_mod::lemma_mod_bound(b.len() as int, ch as int);
    assert(s.len() == (na + nb) * ch + b.len() as int % ch as int) by (nonlinear_arith)
        requires
            s.len() == a.len() + b.len(),
            a.len() == ch * na,
            b.len() == ch * nb + b.len() as int % ch as int,
    ;
    vstd::arithmetic::div_mod::lemma_fundamental_div_mod_converse(
        s.len() as int,
        ch as int,
        na + nb,
        b.len() as int % ch as int,
    );
    let left = mono_of(s, ch);
    let right = mono_of(a, ch) + mono_of(b, ch);
    assert forall|i: int| 0 <= i < na + nb implies left[i] == right[i] by {
        if i < na {
            assert(0 <= i * ch && i * ch + ch <= a.len()) by (nonlinear_arith)
                requires
                    0 <= i < na,
                    a.len() == ch * na,
                    ch > 0,
            ;
            assert(s.subrange(i * ch, i * ch + ch) =~= a.subrange(i * ch, i * ch + ch));
        } else {
            let k = i - na;
            assert(i * ch == a.len() + k * ch) by (nonlinear_arith)
                requires
                    i == k + na,
                    a.len() == ch * na,
            ;
            assert(0 <= k * ch && k * ch + ch <= b.len()) by (nonlinear_arith)
                requires
                    0 <= k < nb,
                    b.len() >= ch * nb,
                    ch > 0,
            ;
            assert(s.subrange(i * ch, i * ch + ch) =~= b.subrange(k * ch, k * ch + ch));
        }
    }
    assert(left =~= right);
}

proof fn lemma_emitted_joined(acc: F32, step: F32, a: Seq<F32>, b: Seq<F32>, n: nat)
    requires
        n <= b.len(),
    ensures
        ({
            let mid = acc_after(acc, step, a.len());
            &&& acc_after(acc, step, a.len() + n) == acc_after(mid, step, n)
            &&& emitted(acc, step, a + b, a.len() + n) == emitted(acc, step, a, a.len()) + emitted(
                mid,
                step,
                b,
                n,
            )
        }),
    decreases n,
{
    let mid = acc_after(acc, step, a.len());
    if n == 0 {
        lemma_emitted_prefix(acc, step, a, b, a.len());
        assert(emitted(acc, step, a, a.len()) + emitted(mid, step, b, 0) =~= emitted(
            acc,
            step,
            a,
            a.len(),
        ));
    } else {
        lemma_emitted_joined(acc, step, a, b, (n - 1) as nat);
        assert((a + b)[a.len() + n - 1] == b[n - 1]);
        assert(emitted(acc, step, a + b, a.len() + n) =~= emitted(acc, step, a, a.len()) + emitted(
            mid,
            step,
            b,
            n,
        ));
    }
}

proof fn lemma_emitted_prefix(acc: F32, step: F32, a: Seq<F32>, b: Seq<F32>, n: nat)
    requires
        n <= a.len(),
    ensures
        emitted(acc, step, a + b, n) == emitted(acc, step, a, n),
    decreases n,
{
    if n > 0 {
        lemma_emitted_prefix(acc, step, a, b, (n - 1) as nat);
        assert((a + b)[n - 1] == a[n - 1]);
    }
}

proof fn lemma_frames_joined(a: Seq<F32>, b: Seq<F32>)
    ensures
        frames_of(a) + frames_of(rest_of(a) + b) == frames_of(a + b),
        rest_of(rest_of(a) + b) == rest_of(a + b),
    decreases b.len(),
{
    if b.len() == 0 {
        assert(a + b =~= a);
        assert(rest_of(a) + b =~= rest_of(a));
        lemma_short_stream(rest_of(a));
        assert(frames_of(a) + Seq::<Seq<F32>>::empty() =~= frames_of(a));
    } else {
        let c = b.drop_last();
        let x = b.last();
        lemma_frames_joined(a, c);
        assert(a + b =~= (a + c).push(x));
        assert(rest_of(a) + b =~= (rest_of(a) + c).push(x));
        lemma_frames_of_push(a + c, x);
        lemma_frames_of_push(rest_of(a) + c, x);
        assert(frames_of(a) + frames_of(rest_of(a) + b) =~= frames_of(a + b));
    }
}

/// A device whose rate is `k` times the frame rate is decimated evenly: from
/// the start, every `k`-th sample comes out and no other. (The rate is one that
/// a single holds exactly.)
pub proof fn law_whole_ratios_keep_every_kth_sample(rate: u32, k: int, i: int)
    requires
        rate == k * SAMPLE_RATE,
        rate <= 0x100_0000,
        k >= 1,
        0 <= i,
    ensures
        copies(F32 { bits: 0 }, Intake::initial(rate, 1).step, i) == (if (i + 1) % k == 0 {
            1nat
        } else {
            0nat
        }),
{
    assert(k <= 0x10_0000);
    lemma_int_ratio(rate as int, SAMPLE_RATE as int, k);
    lemma_of_int_zero();
    lemma_acc_counts(k, i as nat);
    let j = i % k;
    vstd::arithmetic::div_mod::lemma_mod_bound(i, k);
    lemma_int_add(j, 1);
    lemma_whole_step(k, j + 1);
    lemma_next_mod(i, k);
}

/// A whole step is due once the count has reached it.
proof fn lemma_whole_step(k: int, j: int)
    requires
        1 <= k <= 0x10_0000,
        0 <= j <= k,
    ensures
        due(F32::of_int(j), F32::of_int(k)) == (if j == k {
            1nat
        } else {
            0nat
        }),
        left(F32::of_int(j), F32::of_int(k)) == F32::of_int(if j == k {
            0
        } else {
            j
        }),
{
    reveal_with_fuel(due, 2);
    reveal_with_fuel(left, 2);
    lemma_int_order(k, j);
    lemma_int_sub(k, k);
    lemma_int_order(k, 0);
    lemma_of_int_exact(0);
    lemma_of_int_exact(k);
    vstd::arithmetic::power2::lemma_pow2_pos(149);
    assert(0 * unit() < k * unit()) by (nonlinear_arith)
        requires
            unit() > 0,
            k >= 1,
    ;
}

/// With a whole step, the accumulator counts up and starts over.
proof fn lemma_acc_counts(k: int, n: nat)
    requires
        1 <= k <= 0x10_0000,
    ensures
        acc_after(F32::of_int(0), F32::of_int(k), n) == F32::of_int(n as int % k),
    decreases n,
{
    if n == 0 {
        vstd::arithmetic::div_mod::lemma_small_mod(0, k as nat);
    } else {
        lemma_acc_counts(k, (n - 1) as nat);
        let j = (n - 1) % k;
        vstd::arithmetic::div_mod::lemma_mod_bound(n - 1, k);
        lemma_int_add(j, 1);
        lemma_whole_step(k, j + 1);
        lemma_next_mod(n - 1, k);
    }
}

/// Counting modulo `k`.
proof fn lemma_next_mod(i: int, k: int)
    requires
        k >= 1,
        0 <= i,
    ensures
        (i + 1) % k == (if i % k + 1 == k {
            0
        } else {
            i % k + 1
        }),
        0 <= i % k < k,
{
    vstd::arithmetic::div_mod::lemma_fundamental_div_mod(i, k);
    vstd::arithmetic::div_mod::lemma_mod_bound(i, k);
    let q = i / k;
    let r = i % k;
    if r + 1 == k {
        assert(i + 1 == (q + 1) * k + 0) by (nonlinear_arith)
            requires
                i == k * q + r,
                r + 1 == k,
        ;
        vstd::arithmetic::div_mod::lemma_fundamental_div_mod_converse(i + 1, k, q + 1, 0);
    } else {
        assert(i + 1 == q * k + (r + 1)) by (nonlinear_arith)
            requires
                i == k * q + r,
        ;
        vstd::arithmetic::div_mod::lemma_fundamental_div_mod_converse(i + 1, k, q, r + 1);
    }
}

/// Small integers compare as numbers.
proof fn lemma_int_order(a: int, b: int)
    requires
        0 <= a <= 0x100_0000,
        0 <= b <= 0x100_0000,
    ensures
        F32::of_int(a).le_spec(F32::of_int(b)) <==> a <= b,
{
    lemma_of_int_exact(a);
    lemma_of_int_exact(b);
    vstd::arithmetic::power2::lemma_pow2_pos(149);
    let u = unit();
    assert(a * u <= b * u <==> a <= b) by (nonlinear_arith)
        requires
            u > 0,
    ;
}

/// Frames come at the frame rate, whatever the device's: with every sample all
/// whole steps are taken off, so none is ever left due. The next sample out is
/// always less than a step away.
pub proof fn law_no_whole_step_is_left_due(rate: u32, n: nat)
    requires
        rate > 0,
    ensures
        ({
            let step = Intake::initial(rate, 1).step;
            acc_after(F32 { bits: 0 }, step, n).lt_spec(step)
        }),
{
    let step = Intake::initial(rate, 1).step;
    lemma_acc_below_step(rate, n);
    lemma_step_size(rate as int);
}

/// The accumulator stays a number from zero to below a step.
proof fn lemma_acc_below_step(rate: u32, n: nat)
    requires
        rate > 0,
    ensures
        ({
            let step = Intake::initial(rate, 1).step;
            let acc = acc_after(F32 { bits: 0 }, step, n);
            positive(acc) && acc.finite() && acc.scaled() < step.scaled()
        }),
    decreases n,
{
    let step = Intake::initial(rate, 1).step;
    lemma_step_size(rate as int);
    vstd::arithmetic::power2::lemma_pow2_pos(149);
    assert(grid(0) == 0);
    if n > 0 {
        lemma_acc_below_step(rate, (n - 1) as nat);
        let acc = acc_after(F32 { bits: 0 }, step, (n - 1) as nat);
        lemma_of_int_exact(1);
        lemma_of_int_monotone(0, 1);
        let a = acc.add_spec(F32::of_int(1));
        lemma_one_more(acc, step);
        lemma_all_taken_off(a, step);
    }
}

/// A step is no tiny number, and far from the largest.
proof fn lemma_step_size(rate: int)
    requires
        1 <= rate <= u32::MAX,
    ensures
        ({
            let step = F32::of_int(rate).div_spec(F32::of_int(SAMPLE_RATE as int));
            &&& positive(step)
            &&& unit() <= 0x4000 * step.scaled()
            &&& step.scaled() <= 0x1_0000_0000 * unit()
        }),
{
    let u = unit();
    vstd::arithmetic::power2::lemma_pow2_pos(149);
    vstd::arithmetic::power2::lemma2_to64();
    let a = F32::of_int(rate);
    let one = F32::of_int(1);
    let d = F32::of_int(SAMPLE_RATE as int);
    lemma_of_int_exact(1);
    lemma_of_int_exact(SAMPLE_RATE as int);
    lemma_of_int_monotone(1, rate);
    lemma_of_int_monotone(1, SAMPLE_RATE as int);
    lemma_div_monotone(one, a, d);
    let step = a.div_spec(d);
    let least = one.div_spec(d);
    let g = grid(d.mag());
    assert(g == 16000 * u);
    // A 16384th is on the grid, and below a 16000th.
    vstd::arithmetic::power2::lemma_pow2_adds(14, 135);
    let b = pow2(135) as int;
    let p = lemma_whole_scaled_on_grid(1, 135);
    lemma_grid_rounds_to_itself(p);
    reveal(F32::div_spec);
    assert(u == 0x4000 * b);
    assert(b * g <= u * u && b * g >= 0) by (nonlinear_arith)
        requires
            g == 16000 * u,
            u == 0x4000 * b,
            u > 0,
    ;
    lemma_rounded_cancels(b, g);
    lemma_rounded_monotone(b * g, u * u, g);
    lemma_rounded_is_nearest(u * u, g);
    assert(p <= least.mag());
    assert(p <= step.mag());
    if p < step.mag() {
        lemma_grid_monotone(p, step.mag());
    }
    // The rate is at most 2^32, and is divided.
    vstd::arithmetic::power2::lemma_pow2_adds(32, 149);
    let top = lemma_whole_scaled_on_grid(1, 181);
    lemma_grid_rounds_to_itself(top);
    let ga = grid(a.mag());
    assert(ga <= grid(top)) by {
        reveal(F32::of_int);
        assert(rate * u <= 0x1_0000_0000 * u) by (nonlinear_arith)
            requires
                rate <= 0x1_0000_0000,
                u > 0,
        ;
        lemma_rounded_monotone(rate * u, grid(top), 1);
        lemma_rounded_is_nearest(rate * u, 1);
        if a.mag() < top {
            lemma_grid_monotone(a.mag(), top);
        }
    }
    if a.mag() > 0 {
        lemma_grid_monotone(0, a.mag());
    }
    assert(grid(0) == 0);
    assert(ga * u <= grid(top) * g && grid(top) * g >= 0) by (nonlinear_arith)
        requires
            0 <= ga <= grid(top),
            g == 16000 * u,
            u > 0,
    ;
    lemma_rounded_monotone(ga * u, grid(top) * g, g);
    lemma_rounded_cancels(grid(top), g);
    lemma_rounded_is_nearest(ga * u, g);
    if step.mag() < top {
        lemma_grid_monotone(step.mag(), top);
    }
}

/// One more than less than a step is not many steps.
proof fn lemma_one_more(acc: F32, step: F32)
    requires
        positive(acc),
        acc.finite(),
        positive(step),
        acc.scaled() < step.scaled(),
        unit() <= 0x4000 * step.scaled(),
        step.scaled() <= 0x1_0000_0000 * unit(),
    ensures
        ({
            let a = acc.add_spec(F32::of_int(1));
            positive(a) && a.finite() && a.scaled() <= 0x8000 * step.scaled()
        }),
{
    let u = unit();
    let one = F32::of_int(1);
    let a = acc.add_spec(one);
    vstd::arithmetic::power2::lemma_pow2_pos(149);
    lemma_of_int_exact(1);
    lemma_of_int_exact(2);
    lemma_of_int_monotone(0, 1);
    lemma_of_int_monotone(0, 2);
    assert(grid(0) == 0);
    if acc.mag() > 0 {
        lemma_grid_monotone(0, acc.mag());
    }
    lemma_rounded_is_nearest(acc.scaled() + one.scaled(), 1);
    let c = if step.scaled() < u {
        F32::of_int(2)
    } else {
        lemma_double(step)
    };
    lemma_add_order(acc, one, c);
    reveal(F32::add_spec);
    lemma_scaled_order(a, c);
}

/// Twice an ordinary number is a number.
proof fn lemma_double(a: F32) -> (c: F32)
    requires
        positive(a),
        unit() <= a.scaled() <= 0x1_0000_0000 * unit(),
    ensures
        positive(c),
        c.finite(),
        c.scaled() == 2 * a.scaled(),
{
    vstd::arithmetic::power2::lemma2_to64();
    vstd::arithmetic::power2::lemma_pow2_strictly_increases(23, 149);
    vstd::arithmetic::power2::lemma_pow2_adds(32, 149);
    let p = a.mag();
    let known: int = 0x4f80_0000;
    vstd::arithmetic::power2::lemma_pow2_adds(23, 158);
    lemma_grid_linear(158, 0x80_0000);
    if p > known {
        lemma_grid_monotone(known, p);
    }
    let e = p / 0x80_0000;
    let f = p % 0x80_0000;
    assert(e > 0);
    vstd::arithmetic::power2::lemma_pow2_unfold(e as nat);
    let q = p + 0x80_0000;
    assert(q / 0x80_0000 == e + 1);
    assert(q % 0x80_0000 == f);
    assert((0x80_0000 + f) * pow2(e as nat) == 2 * ((0x80_0000 + f) * pow2((e - 1) as nat)))
        by (nonlinear_arith)
        requires
            pow2(e as nat) == 2 * pow2((e - 1) as nat),
    ;
    F32 { bits: q as u32 }
}

/// A step that is not too small against the accumulator can be taken off.
proof fn lemma_step_shrinks(a: F32, step: F32)
    requires
        positive(a),
        a.finite(),
        positive(step),
        0 < step.scaled() <= a.scaled() <= 0x8000 * step.scaled(),
    ensures
        shrinks(a, step),
        positive(a.sub_spec(step)),
        a.sub_spec(step).finite(),
        a.sub_spec(step).scaled() <= a.scaled(),
{
    let p = a.mag();
    assert(grid(0) == 0);
    assert(p > 0);
    let c = F32 { bits: (p - 1) as u32 };
    lemma_gap(p);
    lemma_grid_step(p - 1);
    lemma_scaled_order(step, a);
    lemma_sub_order(a, step, c);
    lemma_sub_order(a, step, F32 { bits: 0 });
    let r = a.sub_spec(step);
    lemma_scaled_order(r, a);
    lemma_neg_scaled(step);
    lemma_rounded_is_nearest(a.scaled() - step.scaled(), 1);
    reveal(F32::add_spec);
}

/// Neighbouring numbers are close: at most a 32768th of the upper one apart, or
/// one unit.
proof fn lemma_gap(p: int)
    requires
        0 < p,
    ensures
        0x8000 * (grid(p) - grid(p - 1)) <= grid(p) || grid(p) - grid(p - 1) <= 1,
{
    vstd::arithmetic::power2::lemma2_to64();
    let e = p / 0x80_0000;
    let f = p % 0x80_0000;
    if e > 0 && (f > 0 || e > 1) {
        let base = if f > 0 {
            e - 1
        } else {
            e - 2
        };
        let q = p - base * 0x80_0000;
        lemma_grid_linear(base, q);
        lemma_grid_linear(base, q - 1);
        let b = pow2(base as nat) as int;
        vstd::arithmetic::power2::lemma_pow2_pos(base as nat);
        assert(q * b - (q - 1) * b == b) by (nonlinear_arith);
        assert(0x8000 * b <= q * b) by (nonlinear_arith)
            requires
                q >= 0x80_0000,
                b > 0,
        ;
    } else if e == 0 {
        assert(grid(p) == p);
    } else {
        assert(p == 0x80_0000);
        assert(grid(p) == 0x80_0000 * pow2(0));
        assert(grid(p - 1) == p - 1);
    }
}

/// Taking off all whole steps leaves less than one.
proof fn lemma_all_taken_off(a: F32, step: F32)
    requires
        positive(a),
        a.finite(),
        positive(step),
        0 < step.scaled(),
        a.scaled() <= 0x8000 * step.scaled(),
    ensures
        ({
            let r = left(a, step);
            positive(r) && r.finite() && r.scaled() < step.scaled()
        }),
    decreases rank(a),
{
    if step.le_spec(a) {
        lemma_step_shrinks(a, step);
        lemma_scaled_order(a.sub_spec(step), a);
        lemma_all_taken_off(a.sub_spec(step), step);
    }
}

/// A device whose rate goes into the frame rate `k` times is repeated evenly:
/// from the start, every sample comes out `k` times. (The step is one that a
/// single holds exactly: `k` is a power of two.)
pub proof fn law_whole_fractions_repeat_every_sample(rate: u32, k: nat, j: nat, i: int)
    requires
        k == pow2(j),
        rate * k == SAMPLE_RATE,
        0 <= i,
    ensures
        copies(F32 { bits: 0 }, Intake::initial(rate, 1).step, i) == k,
{
    let u = unit();
    vstd::arithmetic::power2::lemma_pow2_pos(149);
    vstd::arithmetic::power2::lemma2_to64();
    assert(1 <= k <= 16000 && rate <= 16000) by (nonlinear_arith)
        requires
            rate * k == 16000,
            rate >= 0,
            k >= 0,
    ;
    if j >= 14 {
        if j > 14 {
            vstd::arithmetic::power2::lemma_pow2_strictly_increases(14, j);
        }
        assert(false);
    }
    let e = 149 - j;
    let b = pow2(e as nat) as int;
    vstd::arithmetic::power2::lemma_pow2_pos(e as nat);
    vstd::arithmetic::power2::lemma_pow2_adds(j, e as nat);
    let step = Intake::initial(rate, 1).step;
    lemma_fraction_step(rate as int, k as int, b);
    lemma_fraction_acc(step, k as int, b, e, i as nat);
    lemma_one_is_steps(k as int, b);
    lemma_fraction_due(step, k as int, b, e, k as int);
}

/// `j` steps of `b` units.
spec fn steps(b: int, j: int) -> F32 {
    F32::pack(false, rounded(j * b, 1))
}

proof fn lemma_fraction_step(rate: int, k: int, b: int)
    requires
        rate * k == SAMPLE_RATE,
        1 <= k,
        0 <= rate <= 16000,
        b > 0,
        k * b == unit(),
    ensures
        F32::of_int(rate).div_spec(F32::of_int(SAMPLE_RATE as int)) == steps(b, 1),
{
    let u = unit();
    lemma_of_int_exact(rate);
    lemma_of_int_exact(SAMPLE_RATE as int);
    lemma_of_int_monotone(0, rate);
    lemma_of_int_monotone(1, SAMPLE_RATE as int);
    reveal(F32::div_spec);
    let g = 16000 * u;
    vstd::arithmetic::power2::lemma_pow2_pos(149);
    assert((rate * u) * u == b * g) by (nonlinear_arith)
        requires
            g == 16000 * u,
            rate * k == 16000,
            k * b == u,
    ;
    assert(rate > 0) by (nonlinear_arith)
        requires
            rate * k == 16000,
            rate >= 0,
    ;
    assert(1 * b == b) by (nonlinear_arith);
    lemma_rounded_cancels(b, g);
    lemma_of_int_monotone(1, rate);
}

proof fn lemma_one_is_steps(k: int, b: int)
    requires
        k * b == unit(),
    ensures
        F32::of_int(1) == steps(b, k),
{
    reveal(F32::of_int);
}

/// Whole numbers of steps are held exactly.
proof fn lemma_steps_exact(b: int, e: int, j: int)
    requires
        0 <= e <= 149,
        b == pow2(e as nat),
        0 <= j <= 16000,
    ensures
        positive(steps(b, j)),
        steps(b, j).finite(),
        steps(b, j).scaled() == j * b,
{
    let p = lemma_whole_scaled_on_grid(j, e);
    lemma_grid_rounds_to_itself(p);
}

proof fn lemma_fraction_due(step: F32, k: int, b: int, e: int, j: int)
    requires
        0 <= e <= 149,
        b == pow2(e as nat),
        b > 0,
        step == steps(b, 1),
        0 <= j <= k <= 16000,
        1 <= k,
    ensures
        due(steps(b, j), step) == j,
        left(steps(b, j), step) == steps(b, 0),
    decreases j,
{
    lemma_steps_exact(b, e, 1);
    lemma_steps_exact(b, e, j);
    if j > 0 {
        lemma_steps_exact(b, e, j - 1);
        lemma_fraction_due(step, k, b, e, j - 1);
        let a = steps(b, j);
        assert((j - 1) * b == j * b - 1 * b && j * b >= 1 * b) by (nonlinear_arith)
            requires
                j >= 1,
                b > 0,
        ;
        lemma_neg_scaled(step);
        lemma_grid_rounds_to_itself(0);
        assert(grid(0) == 0);
        reveal(F32::add_spec);
        assert(a.sub_spec(step) == steps(b, j - 1));
        assert(1 * b > 0);
    } else {
        assert(0 * b < 1 * b) by (nonlinear_arith)
            requires
                b > 0,
        ;
    }
}

proof fn lemma_fraction_acc(step: F32, k: int, b: int, e: int, n: nat)
    requires
        0 <= e <= 149,
        b == pow2(e as nat),
        b > 0,
        k * b == unit(),
        step == steps(b, 1),
        1 <= k <= 16000,
    ensures
        acc_after(F32 { bits: 0 }, step, n) == (F32 { bits: 0 }),
        (F32 { bits: 0 }).add_spec(F32::of_int(1)) == F32::of_int(1),
    decreases n,
{
    lemma_of_int_zero();
    lemma_int_add(0, 1);
    if n > 0 {
        lemma_fraction_acc(step, k, b, e, (n - 1) as nat);
        lemma_one_is_steps(k, b);
        lemma_fraction_due(step, k, b, e, k);
        lemma_grid_rounds_to_itself(0);
        assert(grid(0) == 0);
        assert(0 * b == 0) by (nonlinear_arith);
    }
}

/// What comes out is what came in: every sample that comes out with input sample
/// `i`, as often as a step is due with it, is input sample `i` itself, at every
/// step; and nothing else comes out.
pub proof fn law_what_comes_out_is_what_came_in(
    acc: F32,
    step: F32,
    samples: Seq<F32>,
    n: nat,
    i: int,
    j: int,
)
    requires
        0 <= i < n <= samples.len(),
    ensures
        ({
            let all = emitted(acc, step, samples, n);
            let from = emitted(acc, step, samples, i as nat).len();
            let to = emitted(acc, step, samples, (i + 1) as nat).len();
            &&& emitted(acc, step, samples, 0).len() == 0
            &&& from <= to <= all.len()
            &&& to - from == copies(acc, step, i)
            &&& from <= j < to ==> all[j] == samples[i]
        }),
    decreases n,
{
    if i + 1 < n {
        law_what_comes_out_is_what_came_in(acc, step, samples, (n - 1) as nat, i, j);
    }
}

/// Each output sample of a push, after the frame begun, is the average of the
/// channels of one group of input samples: of the group with which it was due.
/// The average adds up every channel and divides by their number.
pub proof fn law_each_output_sample_is_the_average_of_a_group(
    b: Intake,
    interleaved: Seq<F32>,
    i: int,
    j: int,
)
    requires
        b.channels > 0,
        0 <= i < interleaved.len() / b.channels,
    ensures
        ({
            let mono = mono_of(interleaved, b.channels);
            let group = interleaved.subrange(i * b.channels, i * b.channels + b.channels);
            let average = group.fold_left(
                F32 { bits: 0x8000_0000 },
                |sum: F32, x: F32| sum.add_spec(x),
            ).div_spec(F32::of_int(b.channels as int));
            let from = b.partial.len() + emitted(b.acc, b.step, mono, i as nat).len();
            let to = b.partial.len() + emitted(b.acc, b.step, mono, (i + 1) as nat).len();
            &&& mono.len() == interleaved.len() / b.channels
            &&& 0 <= i * b.channels && i * b.channels + b.channels <= interleaved.len()
            &&& to <= b.stream(interleaved).len()
            &&& to - from == copies(b.acc, b.step, i)
            &&& from <= j < to ==> b.stream(interleaved)[j] == average
            &&& 0 <= j < b.partial.len() ==> b.stream(interleaved)[j] == b.partial[j]
        }),
{
    let mono = mono_of(interleaved, b.channels);
    let ch = b.channels as int;
    let len = interleaved.len() as int;
    vstd::arithmetic::div_mod::lemma_fundamental_div_mod(len, ch);
    vstd::arithmetic::div_mod::lemma_mod_bound(len, ch);
    assert(0 <= i * ch && i * ch + ch <= len) by (nonlinear_arith)
        requires
            0 <= i < len / ch,
            len == ch * (len / ch) + len % ch,
            0 <= len % ch,
            ch > 0,
    ;
    law_an_average_takes_every_sample(interleaved.subrange(i * ch, i * ch + ch));
    law_what_comes_out_is_what_came_in(b.acc, b.step, mono, mono.len(), i, j - b.partial.len());
}

/// Nothing is lost in framing: the frames hold the samples that come out, in
/// order, 512 in each, and what does not fill a frame waits for the next push.
pub proof fn law_frames_hold_the_samples_in_order(b: Intake, interleaved: Seq<F32>, j: int)
    ensures
        ({
            let stream = b.stream(interleaved);
            let frames = b.completes(interleaved);
            let rest = b.next(interleaved).partial;
            &&& frames.len() == stream.len() / 512
            &&& stream.len() == 512 * frames.len() + rest.len()
            &&& rest.len() < 512
            &&& 0 <= j < 512 * frames.len() ==> frames[j / 512].len() == 512 && frames[j / 512][j
                % 512] == stream[j]
            &&& 512 * frames.len() <= j < stream.len() ==> rest[j - 512 * frames.len()] == stream[j]
        }),
{
}

/// Taking whole steps off: how many, times the step, and what is left make up
/// the accumulator, but for one rounding with every step.
proof fn lemma_steps_add_up(a: F32, step: F32, bound: int)
    requires
        positive(a),
        a.finite(),
        positive(step),
        step.finite(),
        0 < step.scaled(),
        a.scaled() <= 0x8000 * step.scaled(),
        a.scaled() <= bound,
    ensures
        ({
            let made = due(a, step) * step.scaled() + left(a, step).scaled();
            &&& 0x100_0000 * (made - a.scaled()) <= due(a, step) * bound
            &&& 0x100_0000 * (a.scaled() - made) <= due(a, step) * bound
        }),
    decreases rank(a),
{
    let s = step.scaled();
    if step.le_spec(a) {
        lemma_step_shrinks(a, step);
        let r = a.sub_spec(step);
        lemma_scaled_order(r, a);
        lemma_sub_error(a, step);
        lemma_steps_add_up(r, step, bound);
        let k = due(r, step) as int;
        assert((k + 1) * s == k * s + s && (k + 1) * bound == k * bound + bound) by (nonlinear_arith);
    } else {
        assert(0 * s == 0 && 0 * bound == 0) by (nonlinear_arith);
    }
}

/// Frames come at the frame rate, whatever the device's: after `n` samples of a
/// device, as many have come out as there are whole steps of the device's rate
/// over 16000 in `n`, but for roundings of 2^-24 of a step and a sample with
/// each sample in and two with each sample out.
pub proof fn law_samples_come_out_at_the_frame_rate(rate: u32, samples: Seq<F32>, n: nat)
    requires
        rate > 0,
        n <= samples.len(),
    ensures
        ({
            let step = F32::of_int(rate as int).div_spec(F32::of_int(16000));
            let out = emitted(F32 { bits: 0 }, Intake::initial(rate, 1).step, samples, n).len();
            let acc = acc_after(F32 { bits: 0 }, Intake::initial(rate, 1).step, n).scaled();
            let slack = (n + 2 * out) * (step.scaled() + unit());
            &&& Intake::initial(rate, 1).step == step
            &&& 0 <= acc < step.scaled()
            &&& 0x100_0000 * (out * step.scaled() + acc - n * unit()) <= slack
            &&& 0x100_0000 * (n * unit() - (out * step.scaled() + acc)) <= slack
        }),
    decreases n,
{
    let step = Intake::initial(rate, 1).step;
    let u = unit();
    let s = step.scaled();
    let zero = F32 { bits: 0 };
    vstd::arithmetic::power2::lemma_pow2_pos(149);
    lemma_acc_below_step(rate, n);
    lemma_step_size(rate as int);
    assert(grid(0) == 0);
    lemma_grid_step(acc_after(zero, step, n).mag());
    if n == 0 {
        assert(0 * s == 0 && 0 * u == 0 && (0 + 2 * 0) * (s + u) == 0) by (nonlinear_arith);
    } else {
        let m = (n - 1) as nat;
        law_samples_come_out_at_the_frame_rate(rate, samples, m);
        lemma_acc_below_step(rate, m);
        let acc = acc_after(zero, step, m);
        let one = F32::of_int(1);
        lemma_of_int_exact(1);
        lemma_of_int_monotone(0, 1);
        lemma_one_more(acc, step);
        let a = acc.add_spec(one);
        lemma_add_error(acc, one);
        lemma_finite_step(step);
        let bound = 2 * (s + u);
        lemma_steps_add_up(a, step, bound);
        let k = due(a, step) as int;
        let before = emitted(zero, step, samples, m).len() as int;
        let out = emitted(zero, step, samples, n).len() as int;
        assert(out == before + k);
        let w = s + u;
        assert(out * s == before * s + k * s) by (nonlinear_arith)
            requires
                out == before + k,
        ;
        assert(n * u == m * u + u) by (nonlinear_arith)
            requires
                n == m + 1,
        ;
        assert((n + 2 * out) * w == (m + 2 * before) * w + w + k * (2 * w)) by (nonlinear_arith)
            requires
                n == m + 1,
                out == before + k,
        ;
    }
}

/// A step is a finite number.
proof fn lemma_finite_step(step: F32)
    requires
        positive(step),
        step.scaled() <= 0x1_0000_0000 * unit(),
    ensures
        step.finite(),
{
    vstd::arithmetic::power2::lemma2_to64();
    vstd::arithmetic::power2::lemma_pow2_adds(32, 149);
    let top = lemma_whole_scaled_on_grid(1, 181);
    if step.mag() > top {
        lemma_grid_monotone(top, step.mag());
    }
}

/// The step of a device that is faster than the frames is above one.
proof fn lemma_fast_step(rate: int)
    requires
        16000 < rate <= u32::MAX,
    ensures
        ({
            let step = F32::of_int(rate).div_spec(F32::of_int(SAMPLE_RATE as int));
            step.scaled() > unit()
        }),
{
    let u = unit();
    vstd::arithmetic::power2::lemma_pow2_pos(149);
    vstd::arithmetic::power2::lemma2_to64();
    let a = F32::of_int(rate);
    let d = F32::of_int(SAMPLE_RATE as int);
    lemma_of_int_exact(16001);
    lemma_of_int_exact(SAMPLE_RATE as int);
    lemma_of_int_monotone(16001, rate);
    lemma_of_int_monotone(1, SAMPLE_RATE as int);
    let g = grid(d.mag());
    assert(g == 16000 * u);
    let ga = grid(a.mag());
    let low = F32::of_int(16001).mag();
    assert(grid(low) == 16001 * u);
    if low < a.mag() {
        lemma_grid_monotone(low, a.mag());
    }
    vstd::arithmetic::power2::lemma_pow2_adds(14, 135);
    let b = pow2(135) as int;
    vstd::arithmetic::power2::lemma_pow2_pos(135);
    let p = lemma_whole_scaled_on_grid(0x4001, 135);
    lemma_grid_rounds_to_itself(p);
    let x = 0x4001 * b;
    assert(x * g <= ga * u && x >= 0) by (nonlinear_arith)
        requires
            x == 0x4001 * b,
            g == 16000 * u,
            u == 0x4000 * b,
            ga >= 16001 * u,
            b > 0,
    ;
    lemma_rounded_cancels(x, g);
    lemma_rounded_monotone(x * g, ga * u, g);
    lemma_rounded_is_nearest(ga * u, g);
    reveal(F32::div_spec);
    let step = a.div_spec(d);
    if p < step.mag() {
        lemma_grid_monotone(p, step.mag());
    }
}

/// A device at the frame rate or above: each sample either comes out once or not
/// at all. It comes out exactly when the accumulator, one more for it, has
/// reached the step, which is then taken off.
pub proof fn law_a_fast_device_is_thinned_out(rate: u32, n: nat)
    requires
        rate >= 16000,
    ensures
        ({
            let step = F32::of_int(rate as int).div_spec(F32::of_int(16000));
            let zero = F32 { bits: 0 };
            let now = acc_after(zero, step, n).add_spec(F32::of_int(1));
            &&& acc_after(zero, step, 0) == zero
            &&& step.le_spec(now) ==> copies(zero, step, n as int) == 1 && acc_after(
                zero,
                step,
                n + 1,
            ) == now.sub_spec(step)
            &&& !step.le_spec(now) ==> copies(zero, step, n as int) == 0 && acc_after(
                zero,
                step,
                n + 1,
            ) == now
        }),
{
    let step = Intake::initial(rate, 1).step;
    let zero = F32 { bits: 0 };
    let u = unit();
    vstd::arithmetic::power2::lemma_pow2_pos(149);
    reveal_with_fuel(due, 2);
    reveal_with_fuel(left, 2);
    let acc = acc_after(zero, step, n);
    let one = F32::of_int(1);
    if rate == 16000 {
        lemma_int_ratio(16000, 16000, 1);
        lemma_of_int_zero();
        lemma_acc_counts(1, n);
        lemma_int_add(0, 1);
        lemma_int_sub(1, 1);
        lemma_whole_step(1, 1);
        lemma_int_order(1, 1);
        assert(n as int % 1 == 0);
    } else {
        lemma_acc_below_step(rate, n);
        lemma_step_size(rate as int);
        lemma_fast_step(rate as int);
        lemma_finite_step(step);
        lemma_of_int_exact(1);
        lemma_of_int_monotone(0, 1);
        lemma_one_more(acc, step);
        let now = acc.add_spec(one);
        let below = F32 { bits: (step.mag() - 1) as u32 };
        lemma_scaled_order(one, step);
        lemma_scaled_order(one, below);
        lemma_scaled_order(acc, step);
        lemma_scaled_order(acc, below);
        lemma_scaled_order(below, step);
        let c = lemma_double(below);
        lemma_add_order(acc, one, c);
        if step.le_spec(now) {
            lemma_step_shrinks(now, step);
            lemma_sub_order(now, step, below);
        }
    }
}

/// A device below the frame rate is repeated, never thinned out: every one of its
/// samples comes out at least once.
pub proof fn law_a_slow_device_is_repeated(rate: u32, n: nat)
    requires
        0 < rate <= 16000,
    ensures
        copies(F32 { bits: 0 }, Intake::initial(rate, 1).step, n as int) >= 1,
{
    let step = Intake::initial(rate, 1).step;
    let acc = acc_after(F32 { bits: 0 }, step, n);
    let one = F32::of_int(1);
    vstd::arithmetic::power2::lemma_pow2_pos(149);
    lemma_acc_below_step(rate, n);
    lemma_step_size(rate as int);
    lemma_finite_step(step);
    lemma_of_int_exact(1);
    lemma_of_int_monotone(0, 1);
    lemma_of_int_monotone(rate as int, 16000);
    lemma_of_int_monotone(1, 16000);
    lemma_div_monotone(F32::of_int(rate as int), F32::of_int(16000), F32::of_int(16000));
    lemma_int_ratio(16000, 16000, 1);
    lemma_scaled_order(step, one);
    lemma_grid_step(acc.mag());
    lemma_add_order(acc, one, one);
}

/// Sixteen-bit samples are shares of full scale, exactly: a signed one is its
/// value over 32768, an unsigned one its distance from the middle over 32768.
pub proof fn law_sixteen_bit_samples_are_shares_of_full_scale(
    signed: Seq<i16>,
    unsigned: Seq<u16>,
    i: int,
)
    ensures
        from_signed(signed).len() == signed.len(),
        from_unsigned(unsigned).len() == unsigned.len(),
        0 <= i < signed.len() ==> 32768 * from_signed(signed)[i].scaled() == signed[i] * unit()
            && from_signed(signed)[i].finite(),
        0 <= i < unsigned.len() ==> 32768 * from_unsigned(unsigned)[i].scaled() == (unsigned[i]
            - 32768) * unit() && from_unsigned(unsigned)[i].finite(),
{
    if 0 <= i < signed.len() {
        lemma_sixteen_bit_share(signed[i] as int);
    }
    if 0 <= i < unsigned.len() {
        let n = unsigned[i] as int;
        lemma_small_difference(n, 32768);
        lemma_sixteen_bit_share(n - 32768);
    }
}

/// Small whole numbers subtract exactly, also below zero.
proof fn lemma_small_difference(a: int, b: int)
    requires
        0 <= a <= 0x1_0000,
        0 <= b <= 0x1_0000,
    ensures
        F32::of_int(a).sub_spec(F32::of_int(b)) == F32::of_int(a - b),
{
    if b <= a {
        lemma_int_sub(a, b);
    } else {
        let u = unit();
        vstd::arithmetic::power2::lemma_pow2_pos(149);
        lemma_of_int_exact(a);
        lemma_of_int_exact(b);
        lemma_of_int_monotone(0, a);
        lemma_of_int_monotone(0, b);
        lemma_neg_scaled(F32::of_int(b));
        reveal(F32::add_spec);
        reveal(F32::of_int);
        assert(a * u - b * u == (a - b) * u && -((a - b) * u) == -(a - b) * u) by (nonlinear_arith);
        assert((a - b) * u < 0) by (nonlinear_arith)
            requires
                a < b,
                u > 0,
        ;
    }
}

/// A sixteen-bit number over 2^15 is held exactly.
proof fn lemma_sixteen_bit_share(n: int)
    requires
        -0x1_0000 <= n <= 0x1_0000,
    ensures
        32768 * F32::of_int(n).div_spec(F32::of_int(32768)).scaled() == n * unit(),
        F32::of_int(n).div_spec(F32::of_int(32768)).finite(),
{
    let u = unit();
    let m = if n >= 0 {
        n
    } else {
        -n
    };
    vstd::arithmetic::power2::lemma_pow2_pos(149);
    vstd::arithmetic::power2::lemma2_to64();
    lemma_of_int_exact(n);
    lemma_of_int_exact(32768);
    lemma_of_int_monotone(1, 32768);
    let a = F32::of_int(n);
    let d = F32::of_int(32768);
    let g = grid(d.mag());
    assert(g == 32768 * u);
    vstd::arithmetic::power2::lemma_pow2_adds(15, 134);
    let b = pow2(134) as int;
    vstd::arithmetic::power2::lemma_pow2_pos(134);
    assert(u == 32768 * b);
    let p = lemma_whole_scaled_on_grid(m, 134);
    lemma_grid_rounds_to_itself(p);
    assert(grid(a.mag()) == m * u) by {
        assert((-n) * u == -(n * u)) by (nonlinear_arith);
        if n > 0 {
            assert(n * u > 0) by (nonlinear_arith)
                requires
                    n > 0,
                    u > 0,
            ;
        }
        lemma_grid_step(a.mag());
        if n < 0 {
            assert(n * u < 0) by (nonlinear_arith)
                requires
                    n < 0,
                    u > 0,
            ;
        }
        if n == 0 {
            assert(0 * u == 0) by (nonlinear_arith);
        }
    }
    assert((m * u) * u == (m * b) * g && m * b >= 0) by (nonlinear_arith)
        requires
            u == 32768 * b,
            g == 32768 * u,
            m >= 0,
            b > 0,
    ;
    lemma_rounded_cancels(m * b, g);
    reveal(F32::div_spec);
    reveal(F32::of_int);
    let r = a.div_spec(d);
    assert(r.mag() == p);
    assert(32768 * (m * b) == m * u) by (nonlinear_arith)
        requires
            u == 32768 * b,
    ;
    assert(n < 0 ==> n * u == -(m * u)) by (nonlinear_arith)
        requires
            m == (if n >= 0 { n } else { -n }),
    ;
}

/// A builder begins with nothing in hand: as many channels as the device has, a
/// step of the device's rate over the frame rate, and no frame begun.
pub proof fn law_a_builder_begins_with_nothing(input_rate: u32, channels: u16)
    ensures
        ({
            let b = Intake::initial(input_rate, channels);
            &&& b.channels == channels
            &&& b.step == F32::of_int(input_rate as int).div_spec(F32::of_int(16000))
            &&& b.acc == (F32 { bits: 0 })
            &&& b.partial.len() == 0
        }),
{
}

/// A push goes on where the last one ended: channels and step stay, the
/// accumulator has counted one for every whole group of channels, and what came
/// out is the frame begun and one run of samples for each group. Input short of
/// a group is dropped.
pub proof fn law_a_push_counts_every_whole_group(b: Intake, interleaved: Seq<F32>)
    requires
        b.channels > 0,
    ensures
        ({
            let groups = interleaved.len() / b.channels;
            let mono = mono_of(interleaved, b.channels);
            let after = b.next(interleaved);
            &&& mono.len() == groups
            &&& after.channels == b.channels && after.step == b.step
            &&& after.acc == acc_after(b.acc, b.step, groups)
            &&& b.stream(interleaved).len() == b.partial.len() + emitted(
                b.acc,
                b.step,
                mono,
                groups,
            ).len()
            &&& groups == 0 ==> b.stream(interleaved) == b.partial
        }),
{
    let mono = mono_of(interleaved, b.channels);
    if mono.len() == 0 {
        assert(b.stream(interleaved) =~= b.partial);
    }
}

/// A device that names no rate is taken as it is: every sample comes out once.
pub proof fn law_without_a_rate_every_sample_comes_out(n: nat)
    ensures
        copies(F32 { bits: 0 }, Intake::initial(0, 1).step, n as int) == 1,
{
    lemma_uncounted(n);
}

proof fn lemma_uncounted(n: nat)
    ensures
        ({
            let zero = F32 { bits: 0 };
            let acc = acc_after(zero, zero, n);
            &&& Intake::initial(0, 1).step == zero
            &&& positive(acc) && acc.finite() && acc.scaled() <= 0x100_0000 * unit()
            &&& copies(zero, zero, n as int) == 1
            &&& left(acc.add_spec(F32::of_int(1)), zero) == acc.add_spec(F32::of_int(1))
            &&& positive(acc.add_spec(F32::of_int(1))) && acc.add_spec(F32::of_int(1)).finite()
            &&& acc.add_spec(F32::of_int(1)).scaled() <= 0x100_0000 * unit()
        }),
    decreases n,
{
    let zero = F32 { bits: 0 };
    let u = unit();
    vstd::arithmetic::power2::lemma_pow2_pos(149);
    lemma_of_int_zero();
    lemma_of_int_exact(1);
    lemma_of_int_exact(0x100_0000);
    lemma_of_int_monotone(0, 1);
    lemma_of_int_monotone(1, 16000);
    lemma_zero_absorbs(F32::of_int(16000));
    assert(grid(0) == 0);
    if n > 0 {
        lemma_uncounted((n - 1) as nat);
    }
    let acc = acc_after(zero, zero, n);
    let one = F32::of_int(1);
    let a = acc.add_spec(one);
    let top = F32::of_int(0x100_0000);
    lemma_grid_step(acc.mag());
    lemma_rounded_is_nearest(acc.scaled() + one.scaled(), 1);
    crate::player::lemma_limit_absorbs_one(acc);
    lemma_scaled_order(a, top);
    assert(positive(a)) by {
        reveal(F32::add_spec);
    }
    lemma_sub_zero(a);
    lemma_grid_step(a.mag());
    lemma_scaled_order(zero, a);
    reveal_with_fuel(due, 2);
    reveal_with_fuel(left, 2);
}

/// A device is found by its exact name, at the first place that has it, and not
/// found only if no place has it.
pub proof fn law_a_device_is_found_by_its_exact_name(name: Seq<char>, listed: Seq<String>, i: int, j: int)
    ensures
        first_match(name, listed, i) && 0 <= j < i ==> listed[i]@ == name && listed[j]@ != name,
        first_match(name, listed, i) ==> 0 <= i < listed.len() && listed[i]@ == name,
        no_match(name, listed) && 0 <= j < listed.len() ==> listed[j]@ != name,
        !(first_match(name, listed, i) && no_match(name, listed)),
{
}

} // verus!
