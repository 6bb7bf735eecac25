//! Pitch: from frequencies to semitones and pitch classes.
//!
//! The logarithms of frequencies and the exponentials of Gaussian weights come
//! from outside; this module says of what they are to be taken.
use crate::float::ratio;
use crate::float::zero;
use crate::float::F32;
use vstd::prelude::*;

verus! {

/// The frequency of a bin in Hz.
#[verifier::allow_in_spec]
pub fn bin_frequency(bin: usize, resolution: F32) -> F32
    returns
        F32::from_usize(bin) * resolution,
{
    F32::from_usize(bin) * resolution
}

/// The distance between bins in Hz.
#[verifier::allow_in_spec]
pub fn frequency_resolution(sample_rate: u32, fft_size: usize) -> F32
    returns
        F32::from_u32(sample_rate) / F32::from_usize(fft_size),
{
    F32::from_u32(sample_rate) / F32::from_usize(fft_size)
}

/// Half the sample rate, in Hz.
#[verifier::allow_in_spec]
pub fn nyquist(sample_rate: u32) -> F32
    returns
        F32::from_u32(sample_rate) / ratio(2, 1),
{
    F32::from_u32(sample_rate) / ratio(2, 1)
}

/// A frequency as a multiple of 440 Hz: what the binary logarithm is taken of.
#[verifier::allow_in_spec]
pub fn above_a4(frequency: F32) -> F32
    returns
        frequency / ratio(440, 1),
{
    frequency / ratio(440, 1)
}

/// The frequencies of bins as multiples of 440 Hz.
pub fn bin_ratios(sample_rate: u32, fft_size: usize, n_bins: usize) -> (r: Vec<F32>)
    ensures
        r@ == Seq::new(
            n_bins as nat,
            |b: int|
                above_a4(
                    bin_frequency(b as usize, frequency_resolution(sample_rate, fft_size)),
                ),
        ),
{
    let resolution = frequency_resolution(sample_rate, fft_size);
    let mut r: Vec<F32> = Vec::new();
    let mut b: usize = 0;
    while b < n_bins
        invariant
            b <= n_bins,
            r@.len() == b,
            forall|k: int| 0 <= k < b ==> r@[k] == above_a4(bin_frequency(k as usize, resolution)),
        decreases n_bins - b,
    {
        r.push(above_a4(bin_frequency(b, resolution)));
        b = b + 1;
    }
    r
}

/// The semitone of a frequency, given the binary logarithm of its ratio to 440 Hz:
/// that of 440 Hz itself is 57.
#[verifier::allow_in_spec]
pub fn semitone_of(log2_ratio: F32) -> F32
    returns
        ratio(12, 1) * log2_ratio + ratio(57, 1),
{
    ratio(12, 1) * log2_ratio + ratio(57, 1)
}

/// The semitone of a frequency in a tuning that is off by some semitones.
#[verifier::allow_in_spec]
pub fn tuned_semitone(log2_ratio: F32, tuning: F32) -> F32
    returns
        semitone_of(log2_ratio) - tuning,
{
    semitone_of(log2_ratio) - tuning
}

/// The place of a semitone on the circle of twelve.
#[verifier::allow_in_spec]
pub fn circle_place(semitone: F32) -> F32
    returns
        semitone.rem_euclid(ratio(12, 1)),
{
    semitone.rem_euclid(ratio(12, 1))
}

/// The number of the pitch class nearest to a place on the circle.
#[verifier::allow_in_spec]
pub fn nearest_class(place: F32) -> i32
    returns
        place.round().rem_euclid(ratio(12, 1)).to_i32(),
{
    place.round().rem_euclid(ratio(12, 1)).to_i32()
}

/// The pitch class of a whole semitone.
pub open spec fn class_of(semitone: int) -> int {
    semitone % 12
}

pub(crate) fn find_class(semitone: i64) -> (r: usize)
    requires
        -0x8000_0001 <= semitone <= 0x1_0000_0000_0000,
    ensures
        r == class_of(semitone as int),
        r < 12,
{
    ((semitone + 2_147_483_652) as u64 % 12) as usize
}

/// The pitch class at an offset from the one nearest to a semitone.
pub open spec fn neighbour_class(semitone: F32, offset: int) -> int {
    class_of(nearest_class(circle_place(semitone)) + offset)
}

pub(crate) fn find_neighbour_class(semitone: F32, offset: i64) -> (r: usize)
    requires
        -1 <= offset <= 1,
    ensures
        r == neighbour_class(semitone, offset as int),
        r < 12,
{
    find_class(nearest_class(circle_place(semitone)) as i64 + offset)
}

/// How far a place on the circle is from a pitch class, the shorter way round.
#[verifier::allow_in_spec]
pub fn circle_distance(place: F32, class: usize) -> F32
    returns
        (place - F32::from_usize(class)).abs().min(
            ratio(12, 1) - (place - F32::from_usize(class)).abs(),
        ),
{
    let d = (place - F32::from_usize(class)).abs();
    d.min(ratio(12, 1) - d)
}

/// What the exponential is taken of for the weight at a distance.
#[verifier::allow_in_spec]
pub fn gaussian_exponent(distance: F32, sigma: F32) -> F32
    returns
        distance.neg() * distance / (ratio(2, 1) * sigma * sigma),
{
    distance.neg() * distance / (ratio(2, 1) * sigma * sigma)
}

/// The deviation of the weights, kept above zero.
#[verifier::allow_in_spec]
pub fn positive_sigma(sigma: F32) -> F32
    returns
        sigma.max(ratio(1, 1_000_000)),
{
    sigma.max(ratio(1, 1_000_000))
}

/// One number each for the pitch class nearest to a semitone and for its neighbours.
#[derive(Debug, Clone, Copy)]
pub struct Neighbours {
    /// The class below
    pub below: F32,
    /// The nearest class
    pub at: F32,
    /// The class above
    pub above: F32,
}

/// What the exponential is taken of for the weight of a pitch class.
pub open spec fn class_exponent(semitone: F32, offset: int, sigma: F32) -> F32 {
    gaussian_exponent(
        circle_distance(circle_place(semitone), neighbour_class(semitone, offset) as usize),
        sigma,
    )
}

/// What the exponentials are taken of for the weights around a semitone.
pub open spec fn exponents_of(semitone: F32, sigma: F32) -> Neighbours {
    Neighbours {
        below: class_exponent(semitone, -1, positive_sigma(sigma)),
        at: class_exponent(semitone, 0, positive_sigma(sigma)),
        above: class_exponent(semitone, 1, positive_sigma(sigma)),
    }
}

fn find_exponents(semitone: F32, sigma: F32) -> (r: Neighbours)
    ensures
        r == exponents_of(semitone, sigma),
{
    let place = circle_place(semitone);
    let s = positive_sigma(sigma);
    Neighbours {
        below: gaussian_exponent(circle_distance(place, find_neighbour_class(semitone, -1)), s),
        at: gaussian_exponent(circle_distance(place, find_neighbour_class(semitone, 0)), s),
        above: gaussian_exponent(circle_distance(place, find_neighbour_class(semitone, 1)), s),
    }
}

/// What the exponentials are taken of for the weights around each of several
/// frequencies, given the logarithms of their ratios to 440 Hz.
pub fn gaussian_exponents(log2_ratios: &[F32], tuning: F32, sigma: F32) -> (r: Vec<Neighbours>)
    ensures
        r@ == Seq::new(
            log2_ratios@.len(),
            |i: int| exponents_of(tuned_semitone(log2_ratios@[i], tuning), sigma),
        ),
{
    let mut r: Vec<Neighbours> = Vec::new();
    let mut i: usize = 0;
    while i < log2_ratios.len()
        invariant
            i <= log2_ratios.len(),
            r@.len() == i,
            forall|k: int|
                0 <= k < i ==> r@[k] == exponents_of(tuned_semitone(log2_ratios@[k], tuning), sigma),
        decreases log2_ratios.len() - i,
    {
        r.push(find_exponents(tuned_semitone(log2_ratios[i], tuning), sigma));
        i = i + 1;
    }
    r
}

/// `acc` with what a tone adds to a pitch class: its strength times the weight of
/// the class, where the class is the nearest one or a neighbour of it.
pub open spec fn with_tone(acc: F32, class: int, semitone: F32, strength: F32, w: Neighbours) -> F32 {
    let a = if neighbour_class(semitone, -1) == class {
        acc + strength * w.below
    } else {
        acc
    };
    let b = if neighbour_class(semitone, 0) == class {
        a + strength * w.at
    } else {
        a
    };
    if neighbour_class(semitone, 1) == class {
        b + strength * w.above
    } else {
        b
    }
}

/// Adds a tone to twelve pitch classes.
pub(crate) fn add_tone(classes: &mut Vec<F32>, semitone: F32, strength: F32, w: Neighbours)
    requires
        old(classes)@.len() == 12,
    ensures
        final(classes)@.len() == 12,
        forall|c: int|
            0 <= c < 12 ==> (#[trigger] final(classes)@[c]) == with_tone(
                old(classes)@[c],
                c,
                semitone,
                strength,
                w,
            ),
{
    let below: usize = find_neighbour_class(semitone, -1);
    let at: usize = find_neighbour_class(semitone, 0);
    let above: usize = find_neighbour_class(semitone, 1);
    let v = classes[below] + strength * w.below;
    classes.set(below, v);
    let v = classes[at] + strength * w.at;
    classes.set(at, v);
    let v = classes[above] + strength * w.above;
    classes.set(above, v);
}

/// Twelve zeros.
pub(crate) fn no_classes() -> (r: Vec<F32>)
    ensures
        r@ == Seq::new(12, |c: int| zero()),
{
    let mut r: Vec<F32> = Vec::new();
    let mut c: usize = 0;
    while c < 12
        invariant
            c <= 12,
            r@.len() == c,
            forall|k: int| 0 <= k < c ==> r@[k] == zero(),
        decreases 12 - c,
    {
        r.push(zero());
        c = c + 1;
    }
    assert(r@ =~= Seq::new(12, |c: int| zero()));
    r
}

/// The three classes around a semitone are different ones, so that a tone adds to
/// each class once at most.
pub proof fn lemma_neighbours_differ(semitone: F32)
    ensures
        neighbour_class(semitone, -1) != neighbour_class(semitone, 0),
        neighbour_class(semitone, 0) != neighbour_class(semitone, 1),
        neighbour_class(semitone, -1) != neighbour_class(semitone, 1),
        0 <= neighbour_class(semitone, -1) < 12,
        0 <= neighbour_class(semitone, 0) < 12,
        0 <= neighbour_class(semitone, 1) < 12,
{
}

/// Magnitudes, none below zero: what they count for chroma is a power of.
pub fn chroma_bases(magnitude_spec_frames: &[Vec<F32>]) -> (r: Vec<Vec<F32>>)
    ensures
        r@.len() == magnitude_spec_frames@.len(),
        forall|i: int|
            0 <= i < r@.len() ==> (#[trigger] r@[i])@ == Seq::new(
                magnitude_spec_frames@[i]@.len(),
                |b: int| magnitude_spec_frames@[i]@[b].max(zero()),
            ),
{
    let mut r: Vec<Vec<F32>> = Vec::new();
    let mut n: usize = 0;
    while n < magnitude_spec_frames.len()
        invariant
            n <= magnitude_spec_frames.len(),
            r@.len() == n,
            forall|i: int|
                0 <= i < n ==> (#[trigger] r@[i])@ == Seq::new(
                    magnitude_spec_frames@[i]@.len(),
                    |b: int| magnitude_spec_frames@[i]@[b].max(zero()),
                ),
        decreases magnitude_spec_frames.len() - n,
    {
        let frame = &magnitude_spec_frames[n];
        let mut row: Vec<F32> = Vec::new();
        let mut b: usize = 0;
        while b < frame.len()
            invariant
                b <= frame.len(),
                row@.len() == b,
                forall|k: int| 0 <= k < b ==> row@[k] == frame@[k].max(zero()),
            decreases frame.len() - b,
        {
            row.push(frame[b].max(zero()));
            b = b + 1;
        }
        assert(row@ =~= Seq::new(frame@.len(), |b: int| frame@[b].max(zero())));
        r.push(row);
        n = n + 1;
    }
    r
}

/// The power by which magnitudes count for chroma.
#[verifier::allow_in_spec]
pub fn chroma_power() -> F32
    returns
        ratio(6, 10),
{
    ratio(6, 10)
}

} // verus!
