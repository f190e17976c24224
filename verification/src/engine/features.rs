//! Per-frame features.

use vstd::prelude::*;

use crate::binary32::F32;

verus! {

/// What a frame's spectrum says about it.
#[derive(Debug, Clone, Copy, PartialEq, Eq, Structural)]
pub struct SpectralFeatures {
    /// High band against low band, in dB: larger is brighter.
    pub tilt_db: F32,
    /// Share of the energy in the speech band.
    pub speech_ratio: F32,
}

/// What the caller has worked out of a frame: the decimal logarithm of its
/// [`rms`], and its spectrum.
#[derive(Debug, Clone, Copy, PartialEq, Eq, Structural)]
pub struct Analysis {
    pub log10_rms: F32,
    pub spectral: SpectralFeatures,
}

/// Everything the cascade reads of one frame.
#[derive(Debug, Clone, Copy, PartialEq, Eq, Structural)]
pub struct FrameFeatures {
    /// The frame's level in dBFS.
    pub db: F32,
    /// Sign changes per sample.
    pub zcr: F32,
    pub spectral: SpectralFeatures,
}

/// The sum, taken from the left. An empty sum is the neutral element -0.
pub open spec fn sum_of(s: Seq<F32>) -> F32
    decreases s.len(),
{
    if s.len() == 0 {
        F32 { bits: 0x8000_0000 }
    } else {
        sum_of(s.drop_last()).add_spec(s.last())
    }
}

/// Each sample squared.
pub open spec fn squares(s: Seq<F32>) -> Seq<F32> {
    s.map_values(|x: F32| x.mul_spec(x))
}

/// The average of some samples.
pub open spec fn mean_of(s: Seq<F32>) -> F32 {
    sum_of(s).div_spec(F32::of_int(s.len() as int))
}

/// Root of the mean of the squares; zero for an empty frame.
pub open spec fn rms_spec(frame: Seq<F32>) -> F32 {
    if frame.len() == 0 {
        F32 { bits: 0 }
    } else {
        mean_of(squares(frame)).sqrt_spec()
    }
}

/// The average of the samples of `frame` in `from..to`.
pub fn mean(frame: &[F32], from: usize, to: usize) -> (r: F32)
    requires
        from <= to <= frame@.len(),
    ensures
        r == mean_of(frame@.subrange(from as int, to as int)),
{
    let mut sum: F32 = F32::from_bits(0x8000_0000);
    let mut i: usize = from;
    let ghost part = frame@.subrange(from as int, to as int);
    assert(part.take(0) =~= Seq::<F32>::empty());
    while i < to
        invariant
            from <= i <= to <= frame@.len(),
            part == frame@.subrange(from as int, to as int),
            sum == sum_of(part.take(i - from)),
        decreases to - i,
    {
        assert(part.take(i - from + 1).drop_last() =~= part.take(i - from));
        sum = sum.add(frame[i]);
        i = i + 1;
    }
    assert(part.take(to - from) =~= part);
    sum.div(F32::from_usize(to - from))
}

/// Root-mean-square of a frame. Zero for an empty frame.
pub fn rms(frame: &[F32]) -> (r: F32)
    ensures
        r == rms_spec(frame@),
{
    if frame.len() == 0 {
        return F32::from_bits(0);
    }
    let mut sum: F32 = F32::from_bits(0x8000_0000);
    let mut i: usize = 0;
    let ghost sq = squares(frame@);
    assert(sq.take(0) =~= Seq::<F32>::empty());
    while i < frame.len()
        invariant
            i <= frame@.len(),
            sq == squares(frame@),
            sum == sum_of(sq.take(i as int)),
        decreases frame@.len() - i,
    {
        assert(sq.take(i + 1).drop_last() =~= sq.take(i as int));
        let s: F32 = frame[i];
        sum = sum.add(s.mul(s));
        i = i + 1;
    }
    assert(sq.take(frame@.len() as int) =~= sq);
    sum.div(F32::from_usize(frame.len())).sqrt()
}

/// Two neighbouring samples lie on different sides of zero; zero itself counts
/// as the upper side.
pub open spec fn crosses(a: F32, b: F32) -> bool {
    F32::of_int(0).le_spec(a) != F32::of_int(0).le_spec(b)
}

/// How many neighbours cross zero.
pub open spec fn crossings(s: Seq<F32>) -> nat
    decreases s.len(),
{
    if s.len() < 2 {
        0
    } else {
        crossings(s.drop_last()) + if crosses(s[s.len() - 2], s.last()) {
            1nat
        } else {
            0nat
        }
    }
}

/// Crossings per sample; zero for an empty frame.
pub open spec fn zcr_spec(frame: Seq<F32>) -> F32 {
    if frame.len() == 0 {
        F32 { bits: 0 }
    } else {
        F32::of_int(crossings(frame) as int).div_spec(F32::of_int(frame.len() as int))
    }
}

/// Sign changes per sample. Zero for an empty frame.
pub fn zero_crossing_rate(frame: &[F32]) -> (r: F32)
    ensures
        r == zcr_spec(frame@),
{
    if frame.len() == 0 {
        return F32::from_bits(0);
    }
    let zero: F32 = F32::from_i32(0);
    let mut count: usize = 0;
    let mut i: usize = 1;
    while i < frame.len()
        invariant
            1 <= i <= frame@.len(),
            zero == F32::of_int(0),
            count == crossings(frame@.take(i as int)),
            count < i,
        decreases frame@.len() - i,
    {
        let ghost seen = frame@.take(i + 1);
        assert(seen.drop_last() =~= frame@.take(i as int));
        if zero.le(frame[i - 1]) != zero.le(frame[i]) {
            count = count + 1;
        }
        i = i + 1;
    }
    assert(frame@.take(i as int) =~= frame@);
    F32::from_usize(count).div(F32::from_usize(frame.len()))
}

/// Linear RMS to dBFS, floored at -100 dB.
pub open spec fn db_spec(rms: F32, log10: F32) -> F32 {
    if rms.le_spec(F32::of_ratio(1, 100_000)) {
        F32::of_int(-100)
    } else {
        F32::of_int(20).mul_spec(log10)
    }
}

/// Linear RMS to dBFS, floored at -100 dB. `log10` is the decimal logarithm of
/// `rms`, taken by the caller.
pub fn db_from_rms(rms: F32, log10: F32) -> (r: F32)
    ensures
        r == db_spec(rms, log10),
{
    if rms.le(F32::ratio(1, 100_000)) {
        return F32::from_i32(-100);
    }
    F32::from_i32(20).mul(log10)
}

/// What the cascade reads of a frame.
pub open spec fn features_of(frame: Seq<F32>, analysis: Analysis) -> FrameFeatures {
    FrameFeatures {
        db: db_spec(rms_spec(frame), analysis.log10_rms),
        zcr: zcr_spec(frame),
        spectral: analysis.spectral,
    }
}

impl FrameFeatures {
    /// The frame's level and sign changes; the rest comes from `analysis`.
    pub fn of(frame: &[F32], analysis: &Analysis) -> (r: FrameFeatures)
        ensures
            r == features_of(frame@, *analysis),
    {
        FrameFeatures {
            db: db_from_rms(rms(frame), analysis.log10_rms),
            zcr: zero_crossing_rate(frame),
            spectral: analysis.spectral,
        }
    }
}

/// The square sum, sample by sample.
proof fn lemma_square_sum(s: Seq<F32>)
    ensures
        sum_of(squares(s)) == s.fold_left(
            F32 { bits: 0x8000_0000 },
            |sum: F32, x: F32| sum.add_spec(x.mul_spec(x)),
        ),
    decreases s.len(),
{
    if s.len() > 0 {
        lemma_square_sum(s.drop_last());
        assert(squares(s).drop_last() =~= squares(s.drop_last()));
    }
}

/// The plain sum, sample by sample.
proof fn lemma_plain_sum(s: Seq<F32>)
    ensures
        sum_of(s) == s.fold_left(
            F32 { bits: 0x8000_0000 },
            |sum: F32, x: F32| sum.add_spec(x),
        ),
    decreases s.len(),
{
    if s.len() > 0 {
        lemma_plain_sum(s.drop_last());
    }
}

/// An average adds every sample up, from the left, and divides by how many there
/// are.
pub proof fn law_an_average_takes_every_sample(s: Seq<F32>)
    ensures
        mean_of(s) == s.fold_left(
            F32 { bits: 0x8000_0000 },
            |sum: F32, x: F32| sum.add_spec(x),
        ).div_spec(F32::of_int(s.len() as int)),
{
    lemma_plain_sum(s);
}

/// A frame's level is its root mean square in dBFS, every sample counted once:
/// 20 times the decimal logarithm, or -100 up to a hundred-thousandth of full
/// scale. The spectrum is passed on as it is.
pub proof fn law_the_level_is_the_root_mean_square(frame: Seq<F32>, analysis: Analysis)
    ensures
        ({
            let sum = frame.fold_left(
                F32 { bits: 0x8000_0000 },
                |sum: F32, x: F32| sum.add_spec(x.mul_spec(x)),
            );
            let root = if frame.len() == 0 {
                F32 { bits: 0 }
            } else {
                sum.div_spec(F32::of_int(frame.len() as int)).sqrt_spec()
            };
            let f = features_of(frame, analysis);
            &&& rms_spec(frame) == root
            &&& root.le_spec(F32::of_ratio(1, 100_000)) ==> f.db == F32::of_int(-100)
            &&& !root.le_spec(F32::of_ratio(1, 100_000)) ==> f.db == F32::of_int(20).mul_spec(
                analysis.log10_rms,
            )
            &&& f.spectral == analysis.spectral
        }),
{
    lemma_square_sum(frame);
}

/// The zero-crossing rate counts every pair of neighbours of which one is below
/// zero and the other is not, and divides by the number of samples.
pub proof fn law_the_crossing_rate_counts_every_sign_change(frame: Seq<F32>, analysis: Analysis)
    requires
        frame.len() > 0,
        forall|i: int| 0 <= i < frame.len() ==> !(#[trigger] frame[i]).nan(),
    ensures
        features_of(frame, analysis).zcr == F32::of_int(
            sign_changes(frame).filter(|c: bool| c).len() as int,
        ).div_spec(F32::of_int(frame.len() as int)),
{
    lemma_crossings(frame);
}

/// For each sample after the first: whether it and the one before it lie on
/// different sides of zero.
pub open spec fn sign_changes(frame: Seq<F32>) -> Seq<bool> {
    Seq::new(
        (if frame.len() == 0 {
            0
        } else {
            frame.len() - 1
        }) as nat,
        |i: int|
            frame[i].lt_spec(F32 { bits: 0 }) != frame[i + 1].lt_spec(F32 { bits: 0 }),
    )
}

proof fn lemma_crossings(s: Seq<F32>)
    requires
        forall|i: int| 0 <= i < s.len() ==> !(#[trigger] s[i]).nan(),
    ensures
        crossings(s) == sign_changes(s).filter(|c: bool| c).len(),
    decreases s.len(),
{
    reveal(Seq::filter);
    crate::binary32::order::lemma_of_int_zero();
    let all = sign_changes(s);
    if s.len() >= 2 {
        let t = s.drop_last();
        assert forall|i: int| 0 <= i < t.len() implies !(#[trigger] t[i]).nan() by {
            assert(!s[i].nan());
        }
        lemma_crossings(t);
        assert(all.drop_last() =~= sign_changes(t));
        assert(!s[s.len() - 2].nan() && !s[s.len() - 1].nan());
        assert(all.last() == crosses(s[s.len() - 2], s.last()));
    }
}

} // verus!
