//! What becomes of a custom alert sound's decoded packets: a mono buffer at
//! the file's native sample rate, cut at ten seconds.

use vstd::prelude::*;

#[allow(unused_imports)]
use crate::audio::{lemma_group_bounds, mono_of};
use crate::binary32::F32;
#[allow(unused_imports)]
use crate::engine::features::{law_an_average_takes_every_sample, mean};

verus! {

/// Longer than this, an alert sound is truncated rather than rejected — a
/// misconfigured 3-minute file just gets cut short, not refused outright.
pub const MAX_DURATION_SECS: u64 = 10;

/// Why a file gives no sound.
#[derive(Debug, Clone, Copy, PartialEq, Eq, Structural)]
pub enum DecodeError {
    /// The format prober did not know the file.
    Unrecognized,
    NoAudioTrack,
    NoCodecParameters,
    NoSampleRate,
    UnsupportedCodec,
    /// Nothing at all could be decoded.
    NoSamples,
}

impl DecodeError {
    pub open spec fn text(self) -> &'static str {
        match self {
            DecodeError::Unrecognized => "unrecognized or corrupt audio file",
            DecodeError::NoAudioTrack => "no audio track in file",
            DecodeError::NoCodecParameters => "no usable audio codec parameters",
            DecodeError::NoSampleRate => "audio track has no sample rate",
            DecodeError::UnsupportedCodec => "unsupported audio codec",
            DecodeError::NoSamples => "no audio samples decoded",
        }
    }

    pub fn message(self) -> (r: &'static str)
        ensures
            r == self.text(),
    {
        match self {
            DecodeError::Unrecognized => "unrecognized or corrupt audio file",
            DecodeError::NoAudioTrack => "no audio track in file",
            DecodeError::NoCodecParameters => "no usable audio codec parameters",
            DecodeError::NoSampleRate => "audio track has no sample rate",
            DecodeError::UnsupportedCodec => "unsupported audio codec",
            DecodeError::NoSamples => "no audio samples decoded",
        }
    }
}

/// What came of asking for the next packet.
pub enum Packet {
    /// End of stream, or a demux error that cannot be recovered from: stop
    /// with whatever was decoded so far.
    End,
    /// A packet of another track.
    OtherTrack,
    /// A malformed packet: a handful of these mid-file shouldn't fail the
    /// whole decode.
    Undecodable,
    /// Interleaved samples, and how many channels they have.
    Decoded { channels: usize, interleaved: Vec<F32> },
}

/// A packet's samples, averaged down to one channel.
pub open spec fn packet_mono(packet: Packet) -> Seq<F32> {
    match packet {
        Packet::Decoded { channels, interleaved } => mono_of(
            interleaved@,
            if channels == 0 {
                1
            } else {
                channels as nat
            },
        ),
        _ => Seq::empty(),
    }
}

/// At most `cap` samples of a sequence.
pub open spec fn capped(s: Seq<F32>, cap: int) -> Seq<F32> {
    if s.len() <= cap {
        s
    } else {
        s.take(cap)
    }
}

/// How many samples fit into the longest sound at a rate.
pub open spec fn cap_at(sample_rate: u32) -> int {
    sample_rate * MAX_DURATION_SECS
}

/// Collects decoded packets.
pub struct Collector {
    samples: Vec<F32>,
    sample_rate: u32,
    ended: bool,
}

impl Collector {
    /// The mono samples so far.
    pub closed spec fn collected(self) -> Seq<F32> {
        self.samples@
    }

    pub closed spec fn rate(self) -> u32 {
        self.sample_rate
    }

    /// The stream has ended.
    pub closed spec fn over(self) -> bool {
        self.ended
    }

    /// No more is held than fits.
    pub closed spec fn wf(self) -> bool {
        self.samples@.len() <= cap_at(self.sample_rate)
    }

    pub proof fn lemma_wf(self)
        requires
            self.wf(),
        ensures
            self.collected().len() <= cap_at(self.rate()),
    {
    }

    pub fn new(sample_rate: u32) -> (r: Collector)
        ensures
            r.wf(),
            r.collected() == Seq::<F32>::empty(),
            r.rate() == sample_rate,
            !r.over(),
    {
        Collector { samples: Vec::new(), sample_rate, ended: false }
    }

    /// Another packet is wanted: the stream goes on and there is room.
    pub fn wants_more(&self) -> (r: bool)
        ensures
            r == (!self.over() && self.collected().len() < cap_at(self.rate())),
    {
        let cap: u64 = self.sample_rate as u64 * MAX_DURATION_SECS;
        !self.ended && (self.samples.len() as u64) < cap
    }

    /// Takes a packet in: its samples are averaged down to mono and appended,
    /// as far as there is room.
    pub fn on_packet(&mut self, packet: &Packet)
        requires
            old(self).wf(),
            !old(self).over(),
        ensures
            final(self).wf(),
            final(self).rate() == old(self).rate(),
            final(self).over() == (packet is End),
            final(self).collected() == capped(
                old(self).collected() + packet_mono(*packet),
                cap_at(old(self).rate()),
            ),
    {
        match packet {
            Packet::End => {
                self.ended = true;
                assert(self.samples@ + packet_mono(*packet) =~= self.samples@);
            },
            Packet::OtherTrack => {
                assert(self.samples@ + packet_mono(*packet) =~= self.samples@);
            },
            Packet::Undecodable => {
                assert(self.samples@ + packet_mono(*packet) =~= self.samples@);
            },
            Packet::Decoded { channels, interleaved } => {
                let count: usize = if *channels == 0 {
                    1
                } else {
                    *channels
                };
                self.mix_in(interleaved.as_slice(), count);
            },
        }
    }

    fn mix_in(&mut self, interleaved: &[F32], channels: usize)
        requires
            old(self).wf(),
            channels > 0,
        ensures
            final(self).wf(),
            final(self).rate() == old(self).rate(),
            final(self).over() == old(self).over(),
            final(self).collected() == capped(
                old(self).collected() + mono_of(interleaved@, channels as nat),
                cap_at(old(self).rate()),
            ),
    {
        let cap: u64 = self.sample_rate as u64 * MAX_DURATION_SECS;
        let ghost before = self.samples@;
        let ghost mono = mono_of(interleaved@, channels as nat);
        let mut start: usize = 0;
        let ghost mut i: nat = 0;
        assert(before + mono.take(0) =~= before);
        assert(0 * channels == 0) by (nonlinear_arith);
        while interleaved.len() - start >= channels && (self.samples.len() as u64) < cap
            invariant
                channels > 0,
                mono == mono_of(interleaved@, channels as nat),
                self.sample_rate == old(self).sample_rate,
                self.ended == old(self).ended,
                cap == cap_at(self.sample_rate),
                start == i * channels,
                start <= interleaved@.len(),
                i <= mono.len(),
                self.samples@ == before + mono.take(i as int),
                self.samples@.len() <= cap,
            decreases interleaved@.len() - start,
        {
            let end: usize = start + channels;
            proof {
                lemma_group_bounds(interleaved@.len(), channels as nat, i);
            }
            self.samples.push(mean(interleaved, start, end));
            start = end;
            proof {
                assert((i + 1) * channels == i * channels + channels) by (nonlinear_arith);
                assert(self.samples@ =~= before + mono.take(i as int + 1));
                i = (i + 1) as nat;
            }
        }
        proof {
            let all = before + mono;
            if interleaved@.len() - start < channels {
                vstd::arithmetic::div_mod::lemma_fundamental_div_mod_converse(
                    interleaved@.len() as int,
                    channels as int,
                    i as int,
                    interleaved@.len() - start,
                );
                assert(mono.take(i as int) =~= mono);
                assert(capped(all, cap as int) =~= self.samples@);
            } else {
                assert(self.samples@.len() == cap);
                assert(self.samples@ =~= all.take(cap as int));
                assert(capped(all, cap as int) =~= self.samples@);
            }
        }
    }

    /// The sound and its rate; an error if nothing was decoded at all.
    pub fn finish(self) -> (r: Result<(Vec<F32>, u32), DecodeError>)
        ensures
            match r {
                Ok((samples, rate)) => {
                    &&& samples@ == self.collected()
                    &&& samples@.len() > 0
                    &&& rate == self.rate()
                },
                Err(e) => e == DecodeError::NoSamples && self.collected().len() == 0,
            },
    {
        if self.samples.len() == 0 {
            return Err(DecodeError::NoSamples);
        }
        Ok((self.samples, self.sample_rate))
    }
}

/// The collected samples after a run of packets.
pub open spec fn collected_after(start: Seq<F32>, packets: Seq<Packet>, cap: int) -> Seq<F32>
    decreases packets.len(),
{
    if packets.len() == 0 {
        start
    } else {
        capped(
            collected_after(start, packets.drop_last(), cap) + packet_mono(packets.last()),
            cap,
        )
    }
}

/// Every sample of a run of packets, one packet after the other.
pub open spec fn joined(packets: Seq<Packet>) -> Seq<F32>
    decreases packets.len(),
{
    if packets.len() == 0 {
        Seq::empty()
    } else {
        joined(packets.drop_last()) + packet_mono(packets.last())
    }
}

/// However a sound is cut into packets, what is collected is the beginning of
/// the whole sound, up to the cap.
pub proof fn law_a_long_sound_is_cut_at_the_cap(packets: Seq<Packet>, cap: int)
    requires
        cap >= 0,
    ensures
        collected_after(Seq::empty(), packets, cap) == capped(joined(packets), cap),
    decreases packets.len(),
{
    if packets.len() == 0 {
        assert(capped(joined(packets), cap) =~= Seq::<F32>::empty());
    } else {
        law_a_long_sound_is_cut_at_the_cap(packets.drop_last(), cap);
        let before = joined(packets.drop_last());
        let more = packet_mono(packets.last());
        assert(capped(capped(before, cap) + more, cap) =~= capped(before + more, cap));
    }
}

/// A decoded packet gives one sample for every whole group of channels: their
/// average, every channel counted. A packet without channels counts as mono.
/// Packets of other tracks, broken ones and the end give none.
pub proof fn law_a_packet_is_averaged_to_mono(packet: Packet, i: int)
    ensures
        match packet {
            Packet::Decoded { channels, interleaved } => {
                let ch = if channels == 0 {
                    1int
                } else {
                    channels as int
                };
                let mono = packet_mono(packet);
                &&& mono.len() == interleaved@.len() as int / ch
                &&& 0 <= i < mono.len() ==> mono[i] == interleaved@.subrange(
                    i * ch,
                    i * ch + ch,
                ).fold_left(
                    F32 { bits: 0x8000_0000 },
                    |sum: F32, x: F32| sum.add_spec(x),
                ).div_spec(F32::of_int(ch))
            },
            _ => packet_mono(packet).len() == 0,
        },
{
    if let Packet::Decoded { channels, interleaved } = packet {
        let ch = if channels == 0 {
            1int
        } else {
            channels as int
        };
        let len = interleaved@.len() as int;
        if 0 <= i < len / ch {
            vstd::arithmetic::div_mod::lemma_fundamental_div_mod(len, ch);
            vstd::arithmetic::div_mod::lemma_mod_bound(len, ch);
            assert(0 <= i * ch && i * ch + ch <= len) by (nonlinear_arith)
                requires
                    0 <= i < len / ch,
                    len == ch * (len / ch) + len % ch,
                    0 <= len % ch,
                    ch > 0,
            ;
            law_an_average_takes_every_sample(interleaved@.subrange(i * ch, i * ch + ch));
        }
    }
}

/// A sound is cut at ten seconds, and only there: what fits is kept whole, and of
/// more the first ten seconds.
pub proof fn law_a_sound_keeps_its_first_ten_seconds(s: Seq<F32>, sample_rate: u32, i: int)
    ensures
        ({
            let kept = capped(s, cap_at(sample_rate));
            &&& s.len() <= 10 * sample_rate ==> kept == s
            &&& s.len() > 10 * sample_rate ==> kept.len() == 10 * sample_rate
            &&& 0 <= i < kept.len() ==> kept[i] == s[i]
        }),
{
}

} // verus!
