//! Cutting a mono 48 kHz signal into overlapping analysis windows.
//!
//! Windows are ten seconds long and start every five seconds. A window
//! never reaches the last sample of the signal: it ends at the sample
//! before it at the latest. A signal shorter than one step is one window
//! that spans all of it.

use vstd::prelude::*;

verus! {

/// Sample rate of every signal that is segmented, in Hz.
pub const TARGET_SAMPLE_RATE: u32 = 48000;

/// Length of a window in seconds.
pub const SEGMENT_LENGTH: u64 = 10;

/// Distance between the starts of two windows in seconds.
pub const SEGMENT_STEP: u64 = 5;

/// Length of a window in samples.
pub const SEGMENT_LENGTH_SAMPLES: usize = 480000;

/// Distance between the starts of two windows in samples.
pub const SEGMENT_STEP_SAMPLES: usize = 240000;

/// One analysis window: the samples `start..end` of the signal.
#[derive(Debug, Clone, Copy, PartialEq, Eq, Structural)]
pub struct FileSegment {
    /// Where the window starts, in whole seconds from the start of the
    /// file.
    pub starting_timestamp: u64,
    /// Index of the first sample of the window.
    pub start: usize,
    /// Index behind the last sample of the window.
    pub end: usize,
}

/// Number of windows of a signal of `n` samples.
pub open spec fn segment_count(n: int) -> int {
    if n < SEGMENT_STEP_SAMPLES {
        1
    } else {
        n / (SEGMENT_STEP_SAMPLES as int)
    }
}

/// First sample of window `i` of a signal of `n` samples.
pub open spec fn window_start(n: int, i: int) -> int {
    if n < SEGMENT_STEP_SAMPLES {
        0
    } else {
        i * SEGMENT_STEP_SAMPLES
    }
}

/// Index behind the last sample of window `i` of a signal of `n` samples.
pub open spec fn window_end(n: int, i: int) -> int {
    if n < SEGMENT_STEP_SAMPLES {
        n
    } else if i * SEGMENT_STEP_SAMPLES + SEGMENT_LENGTH_SAMPLES < n - 1 {
        i * SEGMENT_STEP_SAMPLES + SEGMENT_LENGTH_SAMPLES
    } else {
        n - 1
    }
}

/// Second at which window `i` of a signal of `n` samples starts.
pub open spec fn window_second(n: int, i: int) -> int {
    if n < SEGMENT_STEP_SAMPLES {
        0
    } else {
        i * SEGMENT_STEP
    }
}

/// Window `i` of a signal of `n` samples.
pub open spec fn is_window(segment: FileSegment, n: int, i: int) -> bool {
    &&& segment.start == window_start(n, i)
    &&& segment.end == window_end(n, i)
    &&& segment.starting_timestamp == window_second(n, i)
}

/// The windows of a signal of `pcm_len` samples, in order of their start.
pub fn split_audio_into_segments(pcm_len: usize) -> (segments: Vec<FileSegment>)
    ensures
        segments@.len() == segment_count(pcm_len as int),
        forall|i: int|
            0 <= i < segments@.len() ==> is_window(#[trigger] segments@[i], pcm_len as int, i),
        forall|i: int|
            0 <= i < segments@.len() ==> (#[trigger] segments@[i]).start <= segments@[i].end
                <= pcm_len,
{
    let count: usize = pcm_len / SEGMENT_STEP_SAMPLES;
    if count == 0 {
        let mut whole: Vec<FileSegment> = Vec::new();
        whole.push(FileSegment { starting_timestamp: 0, start: 0, end: pcm_len });
        return whole;
    }
    let mut segments: Vec<FileSegment> = Vec::new();
    let mut i: usize = 0;
    while i < count
        invariant
            count == pcm_len / SEGMENT_STEP_SAMPLES,
            count >= 1,
            i <= count,
            segments@.len() == i,
            forall|k: int|
                0 <= k < i ==> is_window(#[trigger] segments@[k], pcm_len as int, k),
            forall|k: int|
                0 <= k < i ==> (#[trigger] segments@[k]).start <= segments@[k].end <= pcm_len,
        decreases count - i,
    {
        proof {
            assert((i + 1) * SEGMENT_STEP_SAMPLES <= count * SEGMENT_STEP_SAMPLES)
                by (nonlinear_arith)
                requires
                    i + 1 <= count,
            ;
            assert(count * SEGMENT_STEP_SAMPLES <= pcm_len);
        }
        let start: usize = i * SEGMENT_STEP_SAMPLES;
        let room: usize = pcm_len - 1 - start;
        let end: usize = if SEGMENT_LENGTH_SAMPLES < room {
            start + SEGMENT_LENGTH_SAMPLES
        } else {
            pcm_len - 1
        };
        let second: u64 = (i as u64) * SEGMENT_STEP;
        segments.push(FileSegment { starting_timestamp: second, start, end });
        i = i + 1;
    }
    segments
}

/// Every sample but the last lies in some window of a signal that is at
/// least one step long; the last sample lies in none; and there are as
/// many windows as whole steps fit into the signal.
pub proof fn lemma_windows_cover_signal(n: int, sample: int)
    requires
        SEGMENT_STEP_SAMPLES <= n,
        0 <= sample < n,
    ensures
        segment_count(n) == n / (SEGMENT_STEP_SAMPLES as int),
        sample < n - 1 ==> exists|i: int|
            0 <= i < segment_count(n) && #[trigger] window_start(n, i) <= sample < window_end(
                n,
                i,
            ),
        forall|i: int| 0 <= i < segment_count(n) ==> #[trigger] window_end(n, i) <= n - 1,
{
    let step = SEGMENT_STEP_SAMPLES as int;
    let count = n / step;
    assert(count >= 1);
    if sample < n - 1 {
        let at = sample / step;
        let i = if at < count {
            at
        } else {
            count - 1
        };
        assert(at * step <= sample < at * step + step);
        assert(count * step <= n < count * step + step);
        if at < count {
            assert(window_start(n, i) <= sample < window_end(n, i));
        } else {
            assert(at <= count) by (nonlinear_arith)
                requires
                    at * step <= sample,
                    sample < n,
                    n < count * step + step,
                    step > 0,
            ;
            assert(i * step + SEGMENT_LENGTH_SAMPLES >= n - 1) by (nonlinear_arith)
                requires
                    i == count - 1,
                    n < count * step + step,
                    step == 240000,
                    SEGMENT_LENGTH_SAMPLES == 480000,
            ;
            assert(window_start(n, i) <= sample < window_end(n, i));
        }
    }
}

/// A signal shorter than one step is one window over all of it, starting
/// at second zero.
pub proof fn lemma_short_signal_is_one_window(n: int)
    requires
        0 <= n < SEGMENT_STEP_SAMPLES,
    ensures
        segment_count(n) == 1,
        window_start(n, 0) == 0,
        window_end(n, 0) == n,
        window_second(n, 0) == 0,
{
}

/// Every window of a signal that has samples starts inside the signal, on
/// a whole second.
pub proof fn lemma_window_starts_inside(n: int, i: int)
    requires
        0 < n,
        0 <= i < segment_count(n),
    ensures
        0 <= window_start(n, i) < n,
        window_start(n, i) <= window_end(n, i) <= n,
        window_start(n, i) == window_second(n, i) * TARGET_SAMPLE_RATE,
{
    let step = SEGMENT_STEP_SAMPLES as int;
    if n >= step {
        let count = n / step;
        assert(count * step <= n);
        assert((i + 1) * step <= count * step) by (nonlinear_arith)
            requires
                i + 1 <= count,
                step > 0,
        ;
        assert(i * step >= 0) by (nonlinear_arith)
            requires
                i >= 0,
                step > 0,
        ;
        assert(i * 5 * 48000 == i * step) by (nonlinear_arith)
            requires
                step == 240000,
        ;
    }
}

} // verus!
