//! Windowed framing shared by every time-domain feature: a frame of
//! `frame_size` samples starts every `hop_length` samples, and only frames
//! that fit entirely inside the signal are produced.

use vstd::prelude::*;

verus! {

/// Number of whole frames of `frame_size` samples, advancing by `hop_length`,
/// that fit in a signal of `n_samples` samples.
pub open spec fn frame_count_spec(n_samples: int, frame_size: int, hop_length: int) -> int {
    if n_samples < frame_size {
        0
    } else {
        (n_samples - frame_size) / hop_length + 1
    }
}

/// First sample of frame `frame`.
pub open spec fn frame_start(frame: int, hop_length: int) -> int {
    frame * hop_length
}

/// Counts the frames of a signal, on the same time axis as the spectrogram
/// built with the same `frame_size` (n_fft) and `hop_length`. The hop only
/// matters once the signal holds at least one frame, and must then be
/// positive.
pub fn frame_count(n_samples: usize, frame_size: usize, hop_length: usize) -> (count: usize)
    requires
        hop_length > 0 || n_samples < frame_size,
        n_samples < usize::MAX,
    ensures
        count == frame_count_spec(n_samples as int, frame_size as int, hop_length as int),
{
    if n_samples < frame_size {
        0
    } else {
        let span: usize = n_samples - frame_size;
        assert(span / hop_length <= span) by (nonlinear_arith)
            requires
                hop_length > 0,
        ;
        span / hop_length + 1
    }
}

/// The sample range `start..end` of every frame, in order.
pub fn frame_windows(n_samples: usize, frame_size: usize, hop_length: usize) -> (windows: Vec<
    (usize, usize),
>)
    requires
        hop_length > 0 || n_samples < frame_size,
        n_samples < usize::MAX,
    ensures
        windows@.len() == frame_count_spec(n_samples as int, frame_size as int, hop_length as int),
        forall|f: int|
            0 <= f < windows@.len() ==> {
                &&& #[trigger] windows@[f].0 == frame_start(f, hop_length as int)
                &&& windows@[f].1 == frame_start(f, hop_length as int) + frame_size
                &&& windows@[f].1 <= n_samples
            },
{
    let n_frames: usize = frame_count(n_samples, frame_size, hop_length);
    let mut windows: Vec<(usize, usize)> = Vec::new();
    let mut f: usize = 0;
    while f < n_frames
        invariant
            hop_length > 0 || n_samples < frame_size,
            n_frames == frame_count_spec(n_samples as int, frame_size as int, hop_length as int),
            f <= n_frames,
            windows@.len() == f,
            forall|g: int|
                0 <= g < f ==> {
                    &&& #[trigger] windows@[g].0 == frame_start(g, hop_length as int)
                    &&& windows@[g].1 == frame_start(g, hop_length as int) + frame_size
                    &&& windows@[g].1 <= n_samples
                },
        decreases n_frames - f,
    {
        proof {
            lemma_frame_fits(n_samples as int, frame_size as int, hop_length as int, f as int);
        }
        assert(f * hop_length + frame_size <= n_samples);
        let start: usize = f * hop_length;
        windows.push((start, start + frame_size));
        f = f + 1;
    }
    windows
}

/// Frame `frame` is produced exactly when it fits entirely inside the signal:
/// `frame < frame_count` if and only if `frame_start(frame) + frame_size <= n_samples`.
pub proof fn lemma_frame_fits(n_samples: int, frame_size: int, hop_length: int, frame: int)
    requires
        hop_length > 0,
        frame_size >= 0,
        frame >= 0,
    ensures
        frame < frame_count_spec(n_samples, frame_size, hop_length) <==> frame_start(frame, hop_length)
            + frame_size <= n_samples,
{
    if n_samples >= frame_size {
        let span: int = n_samples - frame_size;
        let q: int = span / hop_length;
        let r: int = span % hop_length;
        vstd::arithmetic::div_mod::lemma_fundamental_div_mod(span, hop_length);
        assert(frame <= q <==> frame * hop_length <= span) by (nonlinear_arith)
            requires
                hop_length > 0,
                span == hop_length * q + r,
                0 <= r < hop_length,
                frame >= 0,
        ;
    } else {
        assert(frame * hop_length >= 0) by (nonlinear_arith)
            requires
                hop_length > 0,
                frame >= 0,
        ;
    }
}

/// A signal shorter than one frame has no frames.
pub proof fn lemma_short_signal_has_no_frames(n_samples: int, frame_size: int, hop_length: int)
    requires
        hop_length > 0,
        0 <= n_samples < frame_size,
    ensures
        frame_count_spec(n_samples, frame_size, hop_length) == 0,
{
}

/// Every frame that is produced lies inside the signal, and the frames that
/// are produced are exactly the first `frame_count` ones.
pub proof fn lemma_frames_cover(n_samples: int, frame_size: int, hop_length: int)
    requires
        hop_length > 0,
        frame_size >= 0,
        n_samples >= 0,
    ensures
        forall|f: int|
            0 <= f < frame_count_spec(n_samples, frame_size, hop_length) ==> 0 <= #[trigger] frame_start(
                f,
                hop_length,
            ) && frame_start(f, hop_length) + frame_size <= n_samples,
        frame_start(frame_count_spec(n_samples, frame_size, hop_length), hop_length) + frame_size
            > n_samples,
{
    assert forall|f: int|
        0 <= f < frame_count_spec(n_samples, frame_size, hop_length) implies 0 <= #[trigger] frame_start(
            f,
            hop_length,
        ) && frame_start(f, hop_length) + frame_size <= n_samples by {
        lemma_frame_fits(n_samples, frame_size, hop_length, f);
        assert(f * hop_length >= 0) by (nonlinear_arith)
            requires
                hop_length > 0,
                f >= 0,
        ;
    }
    let c: int = frame_count_spec(n_samples, frame_size, hop_length);
    assert(c >= 0) by {
        if n_samples >= frame_size {
            assert((n_samples - frame_size) / hop_length >= 0) by (nonlinear_arith)
                requires
                    hop_length > 0,
                    n_samples >= frame_size,
            ;
        }
    }
    lemma_frame_fits(n_samples, frame_size, hop_length, c);
}

/// The first frame starts at the first sample, and each frame starts
/// `hop_length` samples after the one before it.
pub proof fn lemma_frames_advance_by_hop(frame: int, hop_length: int)
    ensures
        frame_start(0, hop_length) == 0,
        frame_start(frame + 1, hop_length) == frame_start(frame, hop_length) + hop_length,
{
    assert((frame + 1) * hop_length == frame * hop_length + hop_length) by (nonlinear_arith);
}

} // verus!
