//! Planning the way from a decoded WAV file to mono 48 kHz PCM.
//!
//! Decoding, mixing and resampling compute with floating-point samples
//! and are done by the caller. What is decided here: whether a file is
//! taken at all, which of the steps its format calls for, how the samples
//! are cut for the mixer and the resampler, and whether the resampled
//! signal still has the duration of its source.

use crate::paths::{
    extension_of, has_wav_extension, last_piece, lowercase_of, names_wav, to_lowercase,
};
use crate::segmentation::TARGET_SAMPLE_RATE;
use vstd::prelude::*;

verus! {

/// Number of samples that the resampler takes at a time.
pub const RESAMPLE_CHUNK_SIZE_IN: usize = 1024;

/// Number of sub-chunks that the resampler is asked to work in.
pub const RESAMPLE_SUBCHUNKS: usize = 2;

/// Number of channels that are resampled: the signal is mono by then.
pub const RESAMPLE_CHANNELS: usize = 1;

/// Integer samples are scaled to floats by dividing by this value.
pub const INT_SAMPLE_SCALE: i32 = 0x7fff_ffff;

/// The duration after resampling may differ from the duration before by
/// one part in this many of a second.
pub const DRIFT_TOLERANCE_PER_SECOND: u64 = 10;

/// How the samples of a WAV file are stored.
#[derive(Debug, Clone, Copy, PartialEq, Eq, Structural)]
pub enum SampleFormat {
    /// IEEE floats.
    Float,
    /// Signed integers.
    Int,
}

/// What the header of a WAV file says.
#[derive(Debug, Clone, Copy, PartialEq, Eq, Structural)]
pub struct WavSpec {
    pub channels: u16,
    pub sample_rate: u32,
    pub bits_per_sample: u16,
    pub sample_format: SampleFormat,
}

/// How a stored sample becomes a float.
#[derive(Debug, Clone, Copy, PartialEq, Eq, Structural)]
pub enum SampleConversion {
    /// The sample is a float already.
    PassThrough,
    /// The sample is read as a 32-bit signed integer and divided by
    /// `INT_SAMPLE_SCALE`.
    ScaleInt,
}

/// The steps that a decoded file goes through.
#[derive(Debug, Clone, Copy, PartialEq, Eq, Structural)]
pub struct PreprocessPlan {
    pub conversion: SampleConversion,
    /// The frames are averaged over their channels.
    pub downmix: bool,
    /// The signal is resampled to the target rate.
    pub resample: bool,
}

/// Why a file gave no PCM.
#[derive(Debug)]
pub enum PreprocessError {
    /// The file is no WAV file by its name; the text is what its name
    /// ends in, in lowercase.
    UnsupportedFormat(String),
    /// The decoder gave up; the text is its report.
    DecodeError(String),
    /// The resampler could not be set up; the text is its report.
    ResamplerConstructionError(String),
    /// The resampled signal is more than a tenth of a second longer or
    /// shorter than its source.
    ResamplingDrift { samples_before: usize, source_rate: u32, samples_after: usize },
}

/// Admits a file for decoding by its name: what follows its last `.`
/// must be `wav` in some mix of cases.
pub fn check_extension(file_path: &str) -> (admitted: Result<(), PreprocessError>)
    ensures
        admitted is Ok <==> names_wav(file_path@),
        admitted matches Err(e) ==> e matches PreprocessError::UnsupportedFormat(ext) && ext@
            == lowercase_of(last_piece(file_path@)),
{
    if has_wav_extension(file_path) {
        Ok(())
    } else {
        Err(PreprocessError::UnsupportedFormat(to_lowercase(extension_of(file_path))))
    }
}

/// The steps that a file with the given header goes through.
pub open spec fn plan_for(spec: WavSpec) -> PreprocessPlan {
    PreprocessPlan {
        conversion: match spec.sample_format {
            SampleFormat::Float => SampleConversion::PassThrough,
            SampleFormat::Int => SampleConversion::ScaleInt,
        },
        downmix: spec.channels != 1,
        resample: spec.sample_rate != TARGET_SAMPLE_RATE,
    }
}

/// Decides the steps for a file from its header: integer samples are
/// scaled, more than one channel is mixed down, and any rate but the
/// target rate is resampled.
pub fn plan_preprocessing(spec: &WavSpec) -> (plan: PreprocessPlan)
    ensures
        plan == plan_for(*spec),
{
    let conversion = match spec.sample_format {
        SampleFormat::Float => SampleConversion::PassThrough,
        SampleFormat::Int => SampleConversion::ScaleInt,
    };
    PreprocessPlan {
        conversion,
        downmix: spec.channels != 1,
        resample: spec.sample_rate != TARGET_SAMPLE_RATE,
    }
}

/// Number of pieces of at most `size` items that `len` items are cut
/// into.
pub open spec fn piece_count(len: int, size: int) -> int {
    (len + size - 1) / size
}

/// Where piece `k` starts.
pub open spec fn piece_start(k: int, size: int) -> int {
    k * size
}

/// Where piece `k` ends: a full piece behind its start, or at the end of
/// the items.
pub open spec fn piece_end(k: int, len: int, size: int) -> int {
    if (k + 1) * size <= len {
        (k + 1) * size
    } else {
        len
    }
}

/// Number of frames of an interleaved signal: one for every `channels`
/// samples, and one more for what is left over.
pub fn mono_len(samples: usize, channels: u16) -> (frames: usize)
    requires
        channels > 0,
    ensures
        frames == piece_count(samples as int, channels as int),
{
    let per: usize = channels as usize;
    let whole: usize = samples / per;
    proof {
        lemma_piece_count(samples as int, per as int);
    }
    if samples % per == 0 {
        whole
    } else {
        proof {
            assert(whole < samples) by (nonlinear_arith)
                requires
                    whole == samples / per,
                    samples % per != 0,
                    per > 0,
            ;
        }
        whole + 1
    }
}

/// The count of pieces is the quotient, and one more where the division
/// leaves a rest.
pub proof fn lemma_piece_count(len: int, size: int)
    requires
        0 <= len,
        0 < size,
    ensures
        piece_count(len, size) == if len % size == 0 {
            len / size
        } else {
            len / size + 1
        },
        piece_count(len, size) * size >= len,
        (piece_count(len, size) - 1) * size < len || len == 0,
{
    let q = len / size;
    let r = len % size;
    assert(len == q * size + r) by {
        vstd::arithmetic::div_mod::lemma_fundamental_div_mod(len, size);
        assert(size * q == q * size) by (nonlinear_arith);
    }
    if r == 0 {
        assert((q * size + size - 1) / size == q) by (nonlinear_arith)
            requires
                0 < size,
                0 <= q,
        ;
        assert((q - 1) * size < q * size || q == 0) by (nonlinear_arith)
            requires
                0 < size,
        ;
    } else {
        assert((q * size + r + size - 1) / size == q + 1) by (nonlinear_arith)
            requires
                0 < size,
                0 < r < size,
                0 <= q,
        ;
        assert((q + 1) * size == q * size + size) by (nonlinear_arith);
    }
    assert(q >= 0) by (nonlinear_arith)
        requires
            len == q * size + r,
            0 <= r < size,
            0 <= len,
            0 < size,
    ;
}

/// The samples `start..end` that are averaged into frame `frame` of the
/// mono signal. The sum is divided by the number of channels, also for a
/// last frame that has fewer samples.
pub fn frame_bounds(frame: usize, samples: usize, channels: u16) -> (bounds: (usize, usize))
    requires
        channels > 0,
        frame < piece_count(samples as int, channels as int),
    ensures
        bounds.0 == piece_start(frame as int, channels as int),
        bounds.1 == piece_end(frame as int, samples as int, channels as int),
        bounds.0 < bounds.1 <= samples,
        bounds.1 - bounds.0 <= channels,
{
    let per: usize = channels as usize;
    proof {
        lemma_piece_count(samples as int, per as int);
        let count = piece_count(samples as int, per as int);
        assert(frame * per <= (count - 1) * per) by (nonlinear_arith)
            requires
                frame <= count - 1,
                0 < per,
        ;
        assert((frame + 1) * per == frame * per + per) by (nonlinear_arith);
    }
    let start: usize = frame * per;
    let end: usize = if samples - start >= per {
        start + per
    } else {
        samples
    };
    (start, end)
}

/// Whether a piece is handed to the resampler as a full chunk or as the
/// short rest of the signal.
#[derive(Debug, Clone, Copy, PartialEq, Eq, Structural)]
pub enum ChunkKind {
    /// Exactly `RESAMPLE_CHUNK_SIZE_IN` samples.
    Full,
    /// Fewer samples: the resampler pads them itself.
    Partial,
}

/// One piece of the mono signal for the resampler: the samples
/// `start..end`.
#[derive(Debug, Clone, Copy, PartialEq, Eq, Structural)]
pub struct ResampleChunk {
    pub start: usize,
    pub end: usize,
    pub kind: ChunkKind,
}

/// Number of chunks of a signal of `len` samples.
pub open spec fn chunk_count(len: int) -> int {
    (len + 1023) / 1024
}

/// Where chunk `k` ends: a full chunk behind its start, or at the end of
/// the signal.
pub open spec fn chunk_end(k: int, len: int) -> int {
    if (k + 1) * 1024 <= len {
        (k + 1) * 1024
    } else {
        len
    }
}

/// Chunk `k` of a signal of `len` samples.
pub open spec fn is_chunk(chunk: ResampleChunk, k: int, len: int) -> bool {
    &&& chunk.start == k * 1024
    &&& chunk.end == chunk_end(k, len)
    &&& chunk.kind == if chunk.end - chunk.start == 1024 {
        ChunkKind::Full
    } else {
        ChunkKind::Partial
    }
}

/// `chunks` are the chunks of a signal of `len` samples, in order.
pub open spec fn are_chunks(chunks: Seq<ResampleChunk>, len: int) -> bool {
    &&& chunks.len() == chunk_count(len)
    &&& forall|k: int| 0 <= k < chunks.len() ==> is_chunk(#[trigger] chunks[k], k, len)
}

/// The chunks of a signal follow each other without gap from the first
/// sample to the last; none is empty, and all are full but possibly the
/// last.
pub proof fn lemma_chunks_tile_signal(chunks: Seq<ResampleChunk>, len: int)
    requires
        0 <= len,
        are_chunks(chunks, len),
    ensures
        forall|k: int|
            0 <= k < chunks.len() ==> (#[trigger] chunks[k]).start < chunks[k].end <= len,
        forall|j: int, k: int|
            0 <= j && k == j + 1 && k < chunks.len() ==> (#[trigger] chunks[j]).kind
                == ChunkKind::Full && chunks[j].end == (#[trigger] chunks[k]).start,
        chunks.len() > 0 ==> chunks[0].start == 0 && chunks.last().end == len,
{
    let count = chunk_count(len);
    if chunks.len() > 0 {
        assert(is_chunk(chunks[0], 0, len));
        assert(is_chunk(chunks[count - 1], count - 1, len));
    }
}

/// Cuts a signal of `len` samples into the chunks that are resampled one
/// after the other: chunk `k` starts at sample `1024 * k` and ends a full
/// chunk later, or with the signal.
pub fn resample_chunks(len: usize) -> (chunks: Vec<ResampleChunk>)
    ensures
        are_chunks(chunks@, len as int),
{
    let full: usize = len / RESAMPLE_CHUNK_SIZE_IN;
    let count: usize = if len % RESAMPLE_CHUNK_SIZE_IN == 0 {
        full
    } else {
        full + 1
    };
    let mut chunks: Vec<ResampleChunk> = Vec::new();
    let mut k: usize = 0;
    while k < count
        invariant
            count == chunk_count(len as int),
            k <= count,
            chunks@.len() == k,
            forall|j: int| 0 <= j < k ==> is_chunk(#[trigger] chunks@[j], j, len as int),
        decreases count - k,
    {
        let start: usize = k * RESAMPLE_CHUNK_SIZE_IN;
        let chunk = if len - start >= RESAMPLE_CHUNK_SIZE_IN {
            ResampleChunk { start, end: start + RESAMPLE_CHUNK_SIZE_IN, kind: ChunkKind::Full }
        } else {
            ResampleChunk { start, end: len, kind: ChunkKind::Partial }
        };
        assert(is_chunk(chunk, k as int, len as int));
        chunks.push(chunk);
        k = k + 1;
    }
    chunks
}

/// The resampled signal has the duration of its source to within a tenth
/// of a second: with `before` samples at `rate` Hz and `after` samples at
/// the target rate, `|after / 48000 - before / rate| <= 1 / 10`, stated
/// here without division.
pub open spec fn within_drift_tolerance(before: int, rate: int, after: int) -> bool {
    let scaled_after = after * rate;
    let scaled_before = before * TARGET_SAMPLE_RATE;
    let gap = if scaled_after >= scaled_before {
        scaled_after - scaled_before
    } else {
        scaled_before - scaled_after
    };
    DRIFT_TOLERANCE_PER_SECOND * gap <= TARGET_SAMPLE_RATE * rate
}

/// Checks the duration of a resampled signal against its source: a
/// signal of `samples_before` samples at `source_rate` Hz became
/// `samples_after` samples at the target rate.
pub fn check_duration(samples_before: usize, source_rate: u32, samples_after: usize) -> (checked:
    Result<(), PreprocessError>)
    ensures
        checked is Ok <==> within_drift_tolerance(
            samples_before as int,
            source_rate as int,
            samples_after as int,
        ),
        checked matches Err(e) ==> e == (PreprocessError::ResamplingDrift {
            samples_before,
            source_rate,
            samples_after,
        }),
{
    let rate: u128 = source_rate as u128;
    let target: u128 = TARGET_SAMPLE_RATE as u128;
    proof {
        assert(samples_after * source_rate <= 0xffff_ffff_ffff_ffff * 0xffff_ffff)
            by (nonlinear_arith)
            requires
                samples_after <= 0xffff_ffff_ffff_ffff,
                source_rate <= 0xffff_ffff,
        ;
        assert(samples_before * 48000 <= 0xffff_ffff_ffff_ffff * 48000) by (nonlinear_arith)
            requires
                samples_before <= 0xffff_ffff_ffff_ffff,
        ;
        assert(48000 * source_rate <= 48000 * 0xffff_ffff) by (nonlinear_arith)
            requires
                source_rate <= 0xffff_ffff,
        ;
    }
    let scaled_after: u128 = (samples_after as u128) * rate;
    let scaled_before: u128 = (samples_before as u128) * target;
    let gap: u128 = if scaled_after >= scaled_before {
        scaled_after - scaled_before
    } else {
        scaled_before - scaled_after
    };
    assert(gap <= 0xffff_ffff_ffff_ffff * 0xffff_ffff);
    assert(gap < 0x1_0000_0000_0000_0000_0000_0000) by (nonlinear_arith)
        requires
            gap <= 0xffff_ffff_ffff_ffff * 0xffff_ffff,
    ;
    let tolerance: u128 = DRIFT_TOLERANCE_PER_SECOND as u128;
    assert(tolerance == 10);
    assert(tolerance * gap < 10 * 0x1_0000_0000_0000_0000_0000_0000) by (nonlinear_arith)
        requires
            tolerance == 10,
            gap < 0x1_0000_0000_0000_0000_0000_0000,
    ;
    if tolerance * gap <= target * rate {
        Ok(())
    } else {
        Err(PreprocessError::ResamplingDrift { samples_before, source_rate, samples_after })
    }
}

/// A signal that is not resampled keeps its duration exactly.
pub proof fn lemma_same_rate_no_drift(samples: int)
    requires
        0 <= samples,
    ensures
        within_drift_tolerance(samples, TARGET_SAMPLE_RATE as int, samples),
{
    assert(samples * 48000 == samples * 48000);
}

} // verus!
