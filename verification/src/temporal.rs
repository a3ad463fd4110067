//! The integer part of the time-domain features: zero crossings per frame,
//! peak magnitude per frame and over the whole signal, selection of the
//! frames louder than silence, and the ordering of levels for percentiles.
//!
//! The arithmetic on sample values (squares, roots, logarithms, ratios) is
//! floating point and lies outside this library; everything here decides on
//! samples through the bit-level model of `crate::sample`.

use vstd::prelude::*;
use crate::framing::{frame_count, frame_count_spec, frame_start, lemma_frame_fits};
use crate::sample::{
    abs_bits, abs_sample, is_nan, is_nan_sample, is_non_negative, is_non_negative_sample,
    order_key, sample_order_key, exceeds_silence_floor, f32_lt, SILENCE_FLOOR_BITS,
};

verus! {

/// The samples of frame `f`.
pub open spec fn frame_of(samples: Seq<u32>, f: int, frame_size: int, hop_length: int) -> Seq<u32> {
    samples.subrange(frame_start(f, hop_length), frame_start(f, hop_length) + frame_size)
}

/// The signal changes sign between positions `j` and `j + 1` of `w`, where a
/// sample `x` counts as non-negative when `x >= 0.0`.
pub open spec fn is_crossing(w: Seq<u32>, j: int) -> bool {
    is_non_negative(w[j]) != is_non_negative(w[j + 1])
}

/// Number of adjacent pairs of `w` between which the sign changes.
pub open spec fn crossings(w: Seq<u32>) -> nat
    decreases w.len(),
{
    if w.len() < 2 {
        0
    } else {
        crossings(w.drop_last()) + if is_crossing(w, w.len() - 2) {
            1nat
        } else {
            0nat
        }
    }
}

/// `p` is the peak magnitude of `s[lo..hi]`: the largest absolute value among
/// the samples that are not NaN, or `+0.0` when there is none (the result of
/// folding `f32::max` over the absolute values from `0.0`).
pub open spec fn is_peak_of(s: Seq<u32>, lo: int, hi: int, p: u32) -> bool {
    &&& (p == 0 || exists|k: int| lo <= k < hi && !is_nan(s[k]) && abs_bits(s[k]) == p)
    &&& forall|k: int| lo <= k < hi && !is_nan(#[trigger] s[k]) ==> abs_bits(s[k]) <= p
}

/// The level exceeds the silence floor `1e-10`.
pub open spec fn is_audible(level: u32) -> bool {
    f32_lt(SILENCE_FLOOR_BITS, level)
}

/// Counts the sign changes in `samples[start..end]`.
fn count_crossings(samples: &[u32], start: usize, end: usize) -> (c: usize)
    requires
        start <= end <= samples@.len(),
    ensures
        c == crossings(samples@.subrange(start as int, end as int)),
{
    if end - start <= 1 {
        return 0;
    }
    let mut c: usize = 0;
    let mut j: usize = start + 1;
    assert(samples@.subrange(start as int, j as int).len() == 1);
    while j < end
        invariant
            start + 1 <= j <= end <= samples@.len(),
            c <= j - start,
            c == crossings(samples@.subrange(start as int, j as int)),
        decreases end - j,
    {
        let before = is_non_negative_sample(samples[j - 1]);
        let after = is_non_negative_sample(samples[j]);
        proof {
            let w = samples@.subrange(start as int, j + 1);
            assert(w.drop_last() =~= samples@.subrange(start as int, j as int));
            assert(w[w.len() - 2] == samples@[j - 1]);
            assert(w[w.len() - 1] == samples@[j as int]);
        }
        if before != after {
            c = c + 1;
        }
        j = j + 1;
    }
    c
}

/// Counts, for each frame, how often the signal crosses zero: the number of
/// adjacent sample pairs of which exactly one is `>= 0.0`.
///
/// One count per frame; no frames when the signal is shorter than a frame.
/// The zero crossing rate of a frame is its count divided by
/// `frame_size - 1`.
pub fn zero_crossing_counts(samples: &[u32], frame_size: usize, hop_length: usize) -> (counts: Vec<
    usize,
>)
    requires
        hop_length > 0 || samples@.len() < frame_size,
        samples@.len() < usize::MAX,
    ensures
        counts@.len() == frame_count_spec(samples@.len() as int, frame_size as int, hop_length as int),
        forall|f: int|
            0 <= f < counts@.len() ==> #[trigger] counts@[f] == crossings(
                frame_of(samples@, f, frame_size as int, hop_length as int),
            ),
{
    let n_frames: usize = frame_count(samples.len(), frame_size, hop_length);
    let mut counts: Vec<usize> = Vec::new();
    let mut f: usize = 0;
    while f < n_frames
        invariant
            hop_length > 0 || samples@.len() < frame_size,
            samples@.len() < usize::MAX,
            n_frames == frame_count_spec(
                samples@.len() as int,
                frame_size as int,
                hop_length as int,
            ),
            f <= n_frames,
            counts@.len() == f,
            forall|g: int|
                0 <= g < f ==> #[trigger] counts@[g] == crossings(
                    frame_of(samples@, g, frame_size as int, hop_length as int),
                ),
        decreases n_frames - f,
    {
        proof {
            lemma_frame_fits(samples@.len() as int, frame_size as int, hop_length as int, f as int);
        }
        assert(f * hop_length + frame_size <= samples@.len());
        let start: usize = f * hop_length;
        let c: usize = count_crossings(samples, start, start + frame_size);
        counts.push(c);
        f = f + 1;
    }
    counts
}

/// Computes the peak magnitude of `samples[start..end]`.
fn peak_of(samples: &[u32], start: usize, end: usize) -> (p: u32)
    requires
        start <= end <= samples@.len(),
    ensures
        is_peak_of(samples@, start as int, end as int, p),
        !is_nan(p),
{
    let mut p: u32 = 0;
    let mut j: usize = start;
    while j < end
        invariant
            start <= j <= end <= samples@.len(),
            is_peak_of(samples@, start as int, j as int, p),
            !is_nan(p),
            p < 0x8000_0000,
        decreases end - j,
    {
        let a: u32 = abs_sample(samples[j]);
        if !is_nan_sample(samples[j]) && a > p {
            p = a;
        }
        j = j + 1;
    }
    p
}

/// The peak magnitude of each frame.
pub fn frame_peaks(samples: &[u32], frame_size: usize, hop_length: usize) -> (peaks: Vec<u32>)
    requires
        hop_length > 0 || samples@.len() < frame_size,
        samples@.len() < usize::MAX,
    ensures
        peaks@.len() == frame_count_spec(samples@.len() as int, frame_size as int, hop_length as int),
        forall|f: int|
            0 <= f < peaks@.len() ==> is_peak_of(
                samples@,
                frame_start(f, hop_length as int),
                frame_start(f, hop_length as int) + frame_size,
                #[trigger] peaks@[f],
            ),
{
    let n_frames: usize = frame_count(samples.len(), frame_size, hop_length);
    let mut peaks: Vec<u32> = Vec::new();
    let mut f: usize = 0;
    while f < n_frames
        invariant
            hop_length > 0 || samples@.len() < frame_size,
            samples@.len() < usize::MAX,
            n_frames == frame_count_spec(
                samples@.len() as int,
                frame_size as int,
                hop_length as int,
            ),
            f <= n_frames,
            peaks@.len() == f,
            forall|g: int|
                0 <= g < f ==> is_peak_of(
                    samples@,
                    frame_start(g, hop_length as int),
                    frame_start(g, hop_length as int) + frame_size,
                    #[trigger] peaks@[g],
                ),
        decreases n_frames - f,
    {
        proof {
            lemma_frame_fits(samples@.len() as int, frame_size as int, hop_length as int, f as int);
        }
        assert(f * hop_length + frame_size <= samples@.len());
        let start: usize = f * hop_length;
        let p: u32 = peak_of(samples, start, start + frame_size);
        peaks.push(p);
        f = f + 1;
    }
    peaks
}

/// The peak magnitude of the whole signal.
pub fn peak_amplitude(samples: &[u32]) -> (p: u32)
    ensures
        is_peak_of(samples@, 0, samples@.len() as int, p),
{
    peak_of(samples, 0, samples.len())
}

/// Keeps, in order, the levels that exceed the silence floor `1e-10`.
pub fn audible_levels(levels: &[u32]) -> (kept: Vec<u32>)
    ensures
        kept@ == levels@.filter(|b: u32| is_audible(b)),
{
    let mut kept: Vec<u32> = Vec::new();
    let mut i: usize = 0;
    while i < levels.len()
        invariant
            i <= levels@.len(),
            kept@ == levels@.take(i as int).filter(|b: u32| is_audible(b)),
        decreases levels@.len() - i,
    {
        proof {
            assert(levels@.take(i + 1) =~= levels@.take(i as int).push(levels@[i as int]));
            levels@.take(i as int).lemma_filter_push(levels@[i as int], |b: u32| is_audible(b));
        }
        if exceeds_silence_floor(levels[i]) {
            kept.push(levels[i]);
        }
        i = i + 1;
    }
    assert(levels@.take(levels@.len() as int) =~= levels@);
    kept
}

/// `s` is in ascending `f32` order.
pub open spec fn is_ascending(s: Seq<u32>) -> bool {
    forall|i: int, j: int| 0 <= i < j < s.len() ==> order_key(s[i]) <= order_key(s[j])
}

/// The value has position `k` on the real line.
pub open spec fn key_is(k: int) -> spec_fn(u32) -> bool {
    |b: u32| order_key(b) == k
}

/// The values of `s` at position `k` on the real line, in their order in `s`.
pub open spec fn with_key(s: Seq<u32>, k: int) -> Seq<u32> {
    s.filter(key_is(k))
}

proof fn lemma_filter_insert(s: Seq<u32>, p: int, x: u32, pred: spec_fn(u32) -> bool)
    requires
        0 <= p <= s.len(),
        pred(x) ==> forall|q: int| p <= q < s.len() ==> !pred(#[trigger] s[q]),
    ensures
        s.insert(p, x).filter(pred) == if pred(x) {
            s.filter(pred).push(x)
        } else {
            s.filter(pred)
        },
{
    let a = s.take(p);
    let b = s.skip(p);
    let one = Seq::<u32>::empty().push(x);
    assert(s =~= a + b);
    assert(s.insert(p, x) =~= (a + one) + b);
    Seq::filter_distributes_over_add(a, b, pred);
    Seq::filter_distributes_over_add(a + one, b, pred);
    Seq::filter_distributes_over_add(a, one, pred);
    Seq::<u32>::empty().lemma_filter_push(x, pred);
    assert(Seq::<u32>::empty().filter(pred) =~= Seq::<u32>::empty()) by {
        reveal(Seq::filter);
    }
    if pred(x) {
        assert(b.all(|y: u32| !pred(y)));
        b.lemma_all_neg_filter_empty(pred);
        assert(b.filter(pred) =~= Seq::<u32>::empty());
        assert(a.filter(pred) + one =~= a.filter(pred).push(x));
        assert((a.filter(pred) + one) + Seq::<u32>::empty() =~= a.filter(pred) + one);
        assert(a.filter(pred) + Seq::<u32>::empty() =~= a.filter(pred));
    } else {
        assert(a.filter(pred) + Seq::<u32>::empty() =~= a.filter(pred));
    }
}

/// Sorts levels into ascending order, as a stable sort by `partial_cmp`
/// does: values at the same position (the two zeros) keep their input order.
/// Once there are two levels to compare, none may be NaN (a NaN has no
/// place in the order).
pub fn sort_levels(levels: &[u32]) -> (sorted: Vec<u32>)
    requires
        levels@.len() <= 1 || forall|i: int| 0 <= i < levels@.len() ==> !is_nan(#[trigger] levels@[i]),
    ensures
        is_ascending(sorted@),
        forall|i: int, j: int|
            0 <= i < j < sorted@.len() ==> !f32_lt(#[trigger] sorted@[j], #[trigger] sorted@[i]),
        forall|k: int| #[trigger] with_key(sorted@, k) == with_key(levels@, k),
        sorted@.to_multiset() == levels@.to_multiset(),
{
    let mut sorted: Vec<u32> = Vec::new();
    let mut i: usize = 0;
    assert(levels@.take(0) =~= sorted@);
    while i < levels.len()
        invariant
            i <= levels@.len(),
            is_ascending(sorted@),
            sorted@.len() == i,
            sorted@.to_multiset() == levels@.take(i as int).to_multiset(),
            forall|k: int| #[trigger] with_key(sorted@, k) == with_key(levels@.take(i as int), k),
        decreases levels@.len() - i,
    {
        let x: u32 = levels[i];
        let kx: u32 = sample_order_key(x);
        let mut p: usize = 0;
        while p < sorted.len() && sample_order_key(sorted[p]) <= kx
            invariant
                p <= sorted@.len(),
                kx == order_key(x),
                forall|q: int| 0 <= q < p ==> order_key(#[trigger] sorted@[q]) <= kx,
            decreases sorted@.len() - p,
        {
            p = p + 1;
        }
        proof {
            assert forall|q: int| p <= q < sorted@.len() implies kx < order_key(#[trigger] sorted@[q]) by {
                if p < sorted@.len() {
                    assert(order_key(sorted@[p as int]) > kx);
                }
            }
            vstd::seq_lib::to_multiset_insert(sorted@, p as int, x);
            assert(levels@.take(i + 1) =~= levels@.take(i as int).push(x));
            vstd::seq_lib::to_multiset_build(levels@.take(i as int), x);
        }
        let ghost before = sorted@;
        sorted.insert(p, x);
        proof {
            assert forall|a: int, b: int| 0 <= a < b < sorted@.len() implies order_key(sorted@[a])
                <= order_key(sorted@[b]) by {
                if b < p {
                    assert(sorted@[a] == before[a] && sorted@[b] == before[b]);
                } else if b == p {
                    assert(sorted@[a] == before[a]);
                } else if a < p {
                    assert(sorted@[a] == before[a] && sorted@[b] == before[b - 1]);
                } else if a == p {
                    assert(sorted@[b] == before[b - 1]);
                } else {
                    assert(sorted@[a] == before[a - 1] && sorted@[b] == before[b - 1]);
                }
            }
            assert forall|k: int| #[trigger] with_key(sorted@, k) == with_key(levels@.take(i + 1), k) by {
                assert forall|q: int| p <= q < before.len() implies !key_is(kx as int)(
                    #[trigger] before[q],
                ) by {}
                if key_is(k)(x) {
                    assert forall|q: int| p <= q < before.len() implies !key_is(k)(
                        #[trigger] before[q],
                    ) by {}
                }
                assert(with_key(before, k) == with_key(levels@.take(i as int), k));
                lemma_filter_insert(before, p as int, x, key_is(k));
                levels@.take(i as int).lemma_filter_push(x, key_is(k));
                assert(sorted@ == before.insert(p as int, x));
                assert(levels@.take(i + 1) == levels@.take(i as int).push(x));
            }
        }
        i = i + 1;
    }
    assert(levels@.take(levels@.len() as int) =~= levels@);
    sorted
}

/// A window of `len` samples has at most `len - 1` sign changes, so the
/// zero crossing rate `count / (frame_size - 1)` lies in `0.0..=1.0`.
pub proof fn lemma_crossings_bounded(w: Seq<u32>)
    requires
        w.len() >= 1,
    ensures
        crossings(w) <= w.len() - 1,
    decreases w.len(),
{
    if w.len() >= 2 {
        lemma_crossings_bounded(w.drop_last());
    }
}

/// Every zero crossing count is at most `frame_size - 1`.
pub proof fn lemma_zero_crossing_counts_bounded(
    samples: Seq<u32>,
    frame_size: int,
    hop_length: int,
    counts: Seq<usize>,
)
    requires
        hop_length > 0,
        frame_size >= 1,
        counts.len() == frame_count_spec(samples.len() as int, frame_size, hop_length),
        forall|f: int|
            0 <= f < counts.len() ==> #[trigger] counts[f] == crossings(
                frame_of(samples, f, frame_size, hop_length),
            ),
    ensures
        forall|f: int| 0 <= f < counts.len() ==> #[trigger] counts[f] <= frame_size - 1,
{
    assert forall|f: int| 0 <= f < counts.len() implies #[trigger] counts[f] <= frame_size - 1 by {
        lemma_frame_fits(samples.len() as int, frame_size, hop_length, f);
        assert(f * hop_length >= 0) by (nonlinear_arith)
            requires
                f >= 0,
                hop_length > 0,
        ;
        lemma_crossings_bounded(frame_of(samples, f, frame_size, hop_length));
    }
}

/// The peak of a frame never exceeds the peak of the whole signal.
pub proof fn lemma_frame_peak_within_peak(s: Seq<u32>, lo: int, hi: int, frame_peak: u32, peak: u32)
    requires
        0 <= lo <= hi <= s.len(),
        is_peak_of(s, lo, hi, frame_peak),
        is_peak_of(s, 0, s.len() as int, peak),
    ensures
        frame_peak <= peak,
{
    if frame_peak != 0 {
        let k: int = choose|k: int| lo <= k < hi && !is_nan(s[k]) && abs_bits(s[k]) == frame_peak;
        assert(!is_nan(s[k]));
    }
}

/// The frame-wise features share one time axis: given the frame windows (on
/// which the RMS energy is computed), the zero crossing counts and the frame
/// peaks of the same signal with the same `frame_size` and `hop_length`,
/// there are as many of each, and value `f` of each describes the samples
/// `windows[f].0 .. windows[f].1`.
pub proof fn lemma_shared_time_axis(
    samples: Seq<u32>,
    frame_size: int,
    hop_length: int,
    windows: Seq<(usize, usize)>,
    counts: Seq<usize>,
    peaks: Seq<u32>,
)
    requires
        windows.len() == frame_count_spec(samples.len() as int, frame_size, hop_length),
        forall|f: int|
            0 <= f < windows.len() ==> {
                &&& #[trigger] windows[f].0 == frame_start(f, hop_length)
                &&& windows[f].1 == frame_start(f, hop_length) + frame_size
            },
        counts.len() == frame_count_spec(samples.len() as int, frame_size, hop_length),
        forall|f: int|
            0 <= f < counts.len() ==> #[trigger] counts[f] == crossings(
                frame_of(samples, f, frame_size, hop_length),
            ),
        peaks.len() == frame_count_spec(samples.len() as int, frame_size, hop_length),
        forall|f: int|
            0 <= f < peaks.len() ==> is_peak_of(
                samples,
                frame_start(f, hop_length),
                frame_start(f, hop_length) + frame_size,
                #[trigger] peaks[f],
            ),
    ensures
        counts.len() == windows.len(),
        peaks.len() == windows.len(),
        forall|f: int|
            0 <= f < windows.len() ==> {
                &&& #[trigger] counts[f] == crossings(
                    samples.subrange(windows[f].0 as int, windows[f].1 as int),
                )
                &&& is_peak_of(samples, windows[f].0 as int, windows[f].1 as int, peaks[f])
            },
{
    assert forall|f: int| 0 <= f < windows.len() implies {
        &&& #[trigger] counts[f] == crossings(
            samples.subrange(windows[f].0 as int, windows[f].1 as int),
        )
        &&& is_peak_of(samples, windows[f].0 as int, windows[f].1 as int, peaks[f])
    } by {
        assert(windows[f].0 == frame_start(f, hop_length));
        assert(is_peak_of(
            samples,
            frame_start(f, hop_length),
            frame_start(f, hop_length) + frame_size,
            peaks[f],
        ));
    }
}

/// A level is kept as audible exactly when it exceeds `1e-10`: a positive
/// value above the floor, up to `+inf`; never zero, a negative value or NaN.
pub proof fn lemma_audible_means_above_floor(level: u32)
    ensures
        is_audible(level) <==> 0x2edb_e6ff < level <= 0x7f80_0000,
{
}

/// The peak bounds the magnitude of every sample of the range that is not
/// NaN, the first and the last included.
pub proof fn lemma_peak_bounds_every_sample(s: Seq<u32>, lo: int, hi: int, p: u32, k: int)
    requires
        is_peak_of(s, lo, hi, p),
        lo <= k < hi,
        s[k] % 0x8000_0000 <= 0x7f80_0000,
    ensures
        s[k] % 0x8000_0000 <= p,
{
}

/// The peak is `+0.0` or the magnitude of a sample of the range.
pub proof fn lemma_peak_is_a_magnitude(s: Seq<u32>, lo: int, hi: int, p: u32)
    requires
        is_peak_of(s, lo, hi, p),
    ensures
        p == 0 || exists|k: int| lo <= k < hi && s[k] % 0x8000_0000 == p && p <= 0x7f80_0000,
{
    if p != 0 {
        let k: int = choose|k: int| lo <= k < hi && !is_nan(s[k]) && abs_bits(s[k]) == p;
        assert(lo <= k < hi && s[k] % 0x8000_0000 == p && p <= 0x7f80_0000);
    }
}

/// A range has one peak.
pub proof fn lemma_peak_unique(s: Seq<u32>, lo: int, hi: int, p: u32, q: u32)
    requires
        is_peak_of(s, lo, hi, p),
        is_peak_of(s, lo, hi, q),
    ensures
        p == q,
{
    if p != 0 {
        let k: int = choose|k: int| lo <= k < hi && !is_nan(s[k]) && abs_bits(s[k]) == p;
        assert(abs_bits(s[k]) <= q);
    }
    if q != 0 {
        let k: int = choose|k: int| lo <= k < hi && !is_nan(s[k]) && abs_bits(s[k]) == q;
        assert(abs_bits(s[k]) <= p);
    }
}

/// The peak of one sample `x` that is not NaN is `|x|`; the peak of an empty
/// range, or of a NaN alone, is `+0.0`.
pub proof fn lemma_peak_of_one_sample(s: Seq<u32>, k: int, p: u32)
    requires
        0 <= k < s.len(),
        is_peak_of(s, k, k + 1, p),
    ensures
        s[k] % 0x8000_0000 <= 0x7f80_0000 ==> p == s[k] % 0x8000_0000,
        s[k] % 0x8000_0000 > 0x7f80_0000 ==> p == 0,
        forall|q: u32| is_peak_of(s, k, k, q) ==> q == 0,
{
    assert forall|q: u32| is_peak_of(s, k, k, q) implies q == 0 by {
        if q != 0 {
            let j: int = choose|j: int| k <= j < k && !is_nan(s[j]) && abs_bits(s[j]) == q;
        }
    }
}

/// Extending a range by one sample: the peak becomes the larger of the old
/// peak and the new sample's magnitude, unless that sample is NaN.
pub proof fn lemma_peak_extend(s: Seq<u32>, lo: int, hi: int, p: u32, q: u32)
    requires
        lo <= hi < s.len(),
        is_peak_of(s, lo, hi, p),
        is_peak_of(s, lo, hi + 1, q),
    ensures
        s[hi] % 0x8000_0000 > 0x7f80_0000 ==> q == p,
        s[hi] % 0x8000_0000 <= 0x7f80_0000 && s[hi] % 0x8000_0000 > p ==> q == s[hi] % 0x8000_0000,
        s[hi] % 0x8000_0000 <= 0x7f80_0000 && s[hi] % 0x8000_0000 <= p ==> q == p,
{
    let m: u32 = abs_bits(s[hi]);
    let r: u32 = if is_nan(s[hi]) || m <= p { p } else { m };
    assert(is_peak_of(s, lo, hi + 1, r)) by {
        if r != 0 {
            if r == m && !(is_nan(s[hi]) || m <= p) {
                assert(lo <= hi < hi + 1 && !is_nan(s[hi]) && abs_bits(s[hi]) == r);
            } else {
                let k: int = choose|k: int| lo <= k < hi && !is_nan(s[k]) && abs_bits(s[k]) == p;
                assert(lo <= k < hi + 1 && !is_nan(s[k]) && abs_bits(s[k]) == r);
            }
        }
    }
    lemma_peak_unique(s, lo, hi + 1, q, r);
}

/// Two samples make one crossing exactly when one of them is `>= 0.0`
/// (`+0.0` up to `+inf`, or `-0.0`) and the other is not.
pub proof fn lemma_crossings_of_pair(a: u32, b: u32)
    ensures
        crossings(seq![a, b]) == if (a <= 0x7f80_0000 || a == 0x8000_0000) != (b <= 0x7f80_0000
            || b == 0x8000_0000) {
            1nat
        } else {
            0nat
        },
{
    let w = seq![a, b];
    assert(w.drop_last() =~= seq![a]);
    assert(crossings(seq![a]) == 0);
}

/// Crossings of two joined windows: those of each window plus one when the
/// sign changes across the join.
pub proof fn lemma_crossings_concat(u: Seq<u32>, v: Seq<u32>)
    requires
        u.len() >= 1,
        v.len() >= 1,
    ensures
        crossings(u + v) == crossings(u) + crossings(v) + if is_non_negative(u.last())
            != is_non_negative(v[0]) {
            1nat
        } else {
            0nat
        },
    decreases v.len(),
{
    if v.len() == 1 {
        assert((u + v).drop_last() =~= u);
        assert(crossings(v) == 0);
    } else {
        lemma_crossings_concat(u, v.drop_last());
        assert((u + v).drop_last() =~= u + v.drop_last());
    }
}

/// A window in which every sample is `>= 0.0`, or every sample is not, has
/// no crossing.
pub proof fn lemma_no_crossing_on_one_side(w: Seq<u32>)
    requires
        forall|i: int| 0 <= i < w.len() ==> is_non_negative(#[trigger] w[i]) == is_non_negative(w[0]),
    ensures
        crossings(w) == 0,
    decreases w.len(),
{
    if w.len() >= 2 {
        lemma_no_crossing_on_one_side(w.drop_last());
    }
}

/// A window whose sign alternates at every sample crosses at every pair.
pub proof fn lemma_alternating_crosses_everywhere(w: Seq<u32>)
    requires
        w.len() >= 1,
        forall|i: int| 0 <= i < w.len() - 1 ==> is_non_negative(#[trigger] w[i]) != is_non_negative(w[i + 1]),
    ensures
        crossings(w) == w.len() - 1,
    decreases w.len(),
{
    if w.len() >= 2 {
        lemma_alternating_crosses_everywhere(w.drop_last());
    }
}

} // verus!
