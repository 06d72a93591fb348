//! Mel spectrograms and their shaping into model input.
//!
//! A spectrogram is a matrix of `n_mels` rows and one column per time
//! frame. The audio tower takes a fixed number of frames, so a shorter
//! spectrogram is continued with its own beginning until it is long
//! enough. Values are 64-bit floats held as bit patterns; nothing here
//! computes with them.

use vstd::prelude::*;

verus! {

/// Window of the short-time Fourier transform, in samples.
pub const MEL_FFT_SIZE: usize = 1024;

/// Distance between two frames, in samples.
pub const MEL_HOP_SIZE: usize = 480;

/// Number of mel bands.
pub const N_MELS: usize = 64;

/// Number of frames that the audio tower takes.
pub const TARGET_LENGTH: usize = 1001;

/// Why a spectrogram could not be built or shaped.
#[derive(Debug, Clone, Copy, PartialEq, Eq, Structural)]
pub enum MelError {
    /// The spectrogram has no frame.
    EmptyMelSpectrogram,
    /// A chunk does not have the spectrogram's number of bands, or its
    /// values do not fill its shape.
    ShapeMismatch,
}

/// A mel spectrogram of shape `(n_mels, frames)`.
pub struct MelSpectrogram {
    n_mels: usize,
    columns: Vec<Vec<u64>>,
}

/// Model input of shape `(1, frames, n_mels)`.
pub struct MelTensor {
    n_mels: usize,
    rows: Vec<Vec<u64>>,
}

/// All sequences in `s` have length `n`.
pub open spec fn all_of_len(s: Seq<Vec<u64>>, n: int) -> bool {
    forall|i: int| 0 <= i < s.len() ==> (#[trigger] s[i])@.len() == n
}

impl MelSpectrogram {
    /// Every frame has one value for each band.
    pub closed spec fn wf(&self) -> bool {
        all_of_len(self.columns@, self.n_mels as int)
    }

    /// Number of mel bands (rows).
    pub closed spec fn bands(&self) -> int {
        self.n_mels as int
    }

    /// Number of time frames (columns).
    pub closed spec fn frames(&self) -> int {
        self.columns@.len() as int
    }

    /// The value of band `m` in frame `t`.
    pub closed spec fn at(&self, m: int, t: int) -> u64 {
        self.columns@[t]@[m]
    }

    /// A spectrogram of `n_mels` bands and no frame.
    pub fn new(n_mels: usize) -> (mel: Self)
        ensures
            mel.wf(),
            mel.bands() == n_mels,
            mel.frames() == 0,
    {
        MelSpectrogram { n_mels, columns: Vec::new() }
    }

    /// Number of mel bands.
    pub fn n_mels(&self) -> (n: usize)
        ensures
            n == self.bands(),
    {
        self.n_mels
    }

    /// Number of time frames.
    pub fn frame_count(&self) -> (n: usize)
        ensures
            n == self.frames(),
    {
        self.columns.len()
    }

    /// The value of band `m` in frame `t`.
    pub fn value(&self, m: usize, t: usize) -> (v: u64)
        requires
            self.wf(),
            m < self.bands(),
            t < self.frames(),
        ensures
            v == self.at(m as int, t as int),
    {
        self.columns[t][m]
    }

    /// Appends a chunk of `cols` frames along the time axis. The chunk has
    /// shape `(rows, cols)` and `values` holds it row by row. A chunk with
    /// another number of bands, or whose values do not fill its shape, is
    /// rejected and the spectrogram stays as it was.
    pub fn append(&mut self, rows: usize, cols: usize, values: &[u64]) -> (done: Result<
        (),
        MelError,
    >)
        requires
            old(self).wf(),
        ensures
            final(self).wf(),
            final(self).bands() == old(self).bands(),
            done is Ok <==> rows == old(self).bands() && values@.len() == rows * cols,
            done is Err ==> done == Err::<(), MelError>(MelError::ShapeMismatch) && *final(self)
                == *old(self),
            done is Ok ==> {
                &&& final(self).frames() == old(self).frames() + cols
                &&& forall|m: int, t: int|
                    0 <= m < rows && 0 <= t < old(self).frames() ==> final(self).at(m, t)
                        == old(self).at(m, t)
                &&& forall|m: int, t: int|
                    0 <= m < rows && old(self).frames() <= t < old(self).frames() + cols ==> (
                    #[trigger] final(self).at(m, t)) == values@[m * cols + (t - old(self).frames())]
            },
    {
        if rows != self.n_mels {
            return Err(MelError::ShapeMismatch);
        }
        if !fills_shape(values.len(), rows, cols) {
            return Err(MelError::ShapeMismatch);
        }
        let ghost before = self.columns@;
        let len: usize = values.len();
        let mut t: usize = 0;
        while t < cols
            invariant
                rows == self.n_mels,
                self.n_mels == old(self).n_mels,
                values@.len() == rows * cols,
                values@.len() == len,
                t <= cols,
                before == old(self).columns@,
                self.columns@.len() == before.len() + t,
                all_of_len(self.columns@, self.n_mels as int),
                forall|k: int| 0 <= k < before.len() ==> self.columns@[k] == before[k],
                forall|m: int, j: int|
                    0 <= m < rows && before.len() <= j < before.len() + t ==> (
                    #[trigger] self.columns@[j]@[m]) == values@[m * cols + (j - before.len())],
            decreases cols - t,
        {
            let mut column: Vec<u64> = Vec::new();
            let mut m: usize = 0;
            while m < rows
                invariant
                    values@.len() == rows * cols,
                    values@.len() == len,
                    t < cols,
                    m <= rows,
                    column@.len() == m,
                    forall|j: int| 0 <= j < m ==> column@[j] == values@[j * cols + t],
                decreases rows - m,
            {
                proof {
                    lemma_cell_in_bounds(m as int, t as int, rows as int, cols as int);
                }
                column.push(values[m * cols + t]);
                m = m + 1;
            }
            let ghost so_far = self.columns@;
            self.columns.push(column);
            proof {
                assert forall|mm: int, j: int|
                    0 <= mm < rows && before.len() <= j < before.len() + t + 1 implies (
                #[trigger] self.columns@[j]@[mm]) == values@[mm * cols + (j - before.len())] by {
                    if j < before.len() + t {
                        assert(self.columns@[j] == so_far[j]);
                    }
                }
            }
            t = t + 1;
        }
        Ok(())
    }
}

/// `len == rows * cols`, computed without overflow.
fn fills_shape(len: usize, rows: usize, cols: usize) -> (fills: bool)
    ensures
        fills == (len == rows * cols),
{
    if rows == 0 || cols == 0 {
        assert(rows * cols == 0) by (nonlinear_arith)
            requires
                rows == 0 || cols == 0,
        ;
        len == 0
    } else if len % rows != 0 {
        proof {
            if len == rows * cols {
                assert((rows * cols) % (rows as int) == 0) by (nonlinear_arith)
                    requires
                        rows > 0,
                ;
            }
        }
        false
    } else {
        let q: usize = len / rows;
        proof {
            assert(len == rows * q) by (nonlinear_arith)
                requires
                    q == len / rows,
                    len % rows == 0,
                    rows > 0,
            ;
            if q == cols {
            } else {
                assert(rows * q != rows * cols) by (nonlinear_arith)
                    requires
                        q != cols,
                        rows > 0,
                ;
            }
        }
        q == cols
    }
}

/// In a matrix of `rows` by `cols` cells laid out row by row, cell
/// `(m, t)` lies inside the layout.
pub proof fn lemma_cell_in_bounds(m: int, t: int, rows: int, cols: int)
    requires
        0 <= m < rows,
        0 <= t < cols,
    ensures
        0 <= m * cols + t < rows * cols,
{
    assert(m * cols + t < rows * cols) by (nonlinear_arith)
        requires
            0 <= m < rows,
            0 <= t < cols,
    ;
    assert(0 <= m * cols) by (nonlinear_arith)
        requires
            0 <= m,
            0 <= cols,
    ;
}

impl MelTensor {
    /// Every frame has one value for each band.
    pub closed spec fn wf(&self) -> bool {
        all_of_len(self.rows@, self.n_mels as int)
    }

    /// Number of time frames (second axis).
    pub closed spec fn frames(&self) -> int {
        self.rows@.len() as int
    }

    /// Number of mel bands (third axis).
    pub closed spec fn bands(&self) -> int {
        self.n_mels as int
    }

    /// The value at `(0, t, m)`.
    pub closed spec fn at(&self, t: int, m: int) -> u64 {
        self.rows@[t]@[m]
    }

    /// Number of time frames.
    pub fn frame_count(&self) -> (n: usize)
        ensures
            n == self.frames(),
    {
        self.rows.len()
    }

    /// Number of mel bands.
    pub fn n_mels(&self) -> (n: usize)
        ensures
            n == self.bands(),
    {
        self.n_mels
    }

    /// The shape of the tensor: one batch entry, then frames, then bands.
    pub fn shape(&self) -> (shape: (usize, usize, usize))
        ensures
            shape.0 == 1,
            shape.1 == self.frames(),
            shape.2 == self.bands(),
    {
        (1, self.rows.len(), self.n_mels)
    }

    /// The value at `(0, t, m)`.
    pub fn value(&self, t: usize, m: usize) -> (v: u64)
        requires
            self.wf(),
            t < self.frames(),
            m < self.bands(),
        ensures
            v == self.at(t as int, m as int),
    {
        self.rows[t][m]
    }

    /// Frame `t` as a row of `n_mels` values.
    pub fn row(&self, t: usize) -> (row: &Vec<u64>)
        requires
            self.wf(),
            t < self.frames(),
        ensures
            row@.len() == self.bands(),
            forall|m: int| 0 <= m < self.bands() ==> row@[m] == self.at(t as int, m),
    {
        &self.rows[t]
    }
}

/// Number of frames of the model input made from a spectrogram of
/// `frames` frames: the target length, or all frames where there are more.
pub open spec fn shaped_frames(frames: int) -> int {
    if frames <= TARGET_LENGTH {
        TARGET_LENGTH as int
    } else {
        frames
    }
}

/// `tensor` is the model input made from `mel`: it has the bands of the
/// spectrogram, and its frame `t` is frame `t` of the spectrogram counted
/// round and round.
pub open spec fn is_shaped_from(tensor: MelTensor, mel: MelSpectrogram) -> bool {
    &&& tensor.wf()
    &&& tensor.bands() == mel.bands()
    &&& tensor.frames() == shaped_frames(mel.frames())
    &&& forall|t: int, m: int|
        0 <= t < tensor.frames() && 0 <= m < tensor.bands() ==> tensor.at(t, m) == mel.at(
            m,
            t % mel.frames(),
        )
}

/// Shapes a spectrogram into model input: time becomes the leading data
/// axis, and a spectrogram shorter than the target length is continued
/// with its own frames from the start, over and over, until the target
/// length is reached. An empty spectrogram is rejected.
pub fn reshape_mel_spec(mel_spec: &MelSpectrogram) -> (shaped: Result<MelTensor, MelError>)
    requires
        mel_spec.wf(),
    ensures
        shaped is Ok <==> mel_spec.frames() > 0,
        shaped is Err ==> shaped == Err::<MelTensor, MelError>(MelError::EmptyMelSpectrogram),
        shaped matches Ok(tensor) ==> is_shaped_from(tensor, *mel_spec),
{
    let frames: usize = mel_spec.columns.len();
    if frames == 0 {
        return Err(MelError::EmptyMelSpectrogram);
    }
    // With time first, a frame of the spectrogram is a row of the result.
    let mut rows: Vec<Vec<u64>> = Vec::new();
    let mut t: usize = 0;
    while t < frames
        invariant
            frames == mel_spec.columns@.len(),
            t <= frames,
            rows@.len() == t,
            all_of_len(mel_spec.columns@, mel_spec.n_mels as int),
            all_of_len(rows@, mel_spec.n_mels as int),
            forall|k: int| 0 <= k < t ==> rows@[k]@ == mel_spec.columns@[k]@,
        decreases frames - t,
    {
        rows.push(mel_spec.columns[t].clone());
        t = t + 1;
    }
    proof {
        assert forall|k: int| 0 <= k < frames implies #[trigger] (k % (frames as int)) == k by {
            vstd::arithmetic::div_mod::lemma_small_mod(k as nat, frames as nat);
        }
    }
    while rows.len() < TARGET_LENGTH
        invariant
            frames == mel_spec.columns@.len(),
            frames > 0,
            rows@.len() >= frames,
            rows@.len() as int % (frames as int) == 0 || rows@.len() == TARGET_LENGTH,
            rows@.len() <= TARGET_LENGTH || rows@.len() == frames,
            all_of_len(mel_spec.columns@, mel_spec.n_mels as int),
            all_of_len(rows@, mel_spec.n_mels as int),
            forall|k: int|
                0 <= k < rows@.len() ==> (#[trigger] rows@[k])@ == mel_spec.columns@[k % (
                frames as int)]@,
        decreases TARGET_LENGTH - rows@.len(),
    {
        let result_len: usize = rows.len();
        let padding_left: usize = TARGET_LENGTH - result_len;
        let slice_bound: usize = if padding_left > frames {
            frames
        } else {
            padding_left
        };
        let mut k: usize = 0;
        while k < slice_bound
            invariant
                frames == mel_spec.columns@.len(),
                frames > 0,
                slice_bound <= frames,
                result_len + slice_bound <= TARGET_LENGTH,
                result_len % frames == 0,
                k <= slice_bound,
                rows@.len() == result_len + k,
                all_of_len(mel_spec.columns@, mel_spec.n_mels as int),
                all_of_len(rows@, mel_spec.n_mels as int),
                forall|j: int|
                    0 <= j < rows@.len() ==> (#[trigger] rows@[j])@ == mel_spec.columns@[j % (
                    frames as int)]@,
            decreases slice_bound - k,
        {
            proof {
                lemma_offset_in_period(result_len as int, k as int, frames as int);
            }
            rows.push(mel_spec.columns[k].clone());
            k = k + 1;
        }
        proof {
            if slice_bound == frames {
                lemma_offset_in_period(result_len as int, 0, frames as int);
                assert((result_len + frames) % (frames as int) == 0) by (nonlinear_arith)
                    requires
                        result_len % frames == 0,
                        frames > 0,
                ;
            }
        }
    }
    let tensor = MelTensor { n_mels: mel_spec.n_mels, rows };
    proof {
        assert forall|t: int, m: int|
            0 <= t < tensor.frames() && 0 <= m < tensor.bands() implies tensor.at(t, m)
                == mel_spec.at(m, t % mel_spec.frames()) by {
            assert(tensor.rows@[t]@ == mel_spec.columns@[t % (frames as int)]@);
        }
    }
    Ok(tensor)
}

/// Counting `k` on from a multiple of `period` lands on `k` within the
/// period.
proof fn lemma_offset_in_period(base: int, k: int, period: int)
    requires
        period > 0,
        base >= 0,
        base % period == 0,
        0 <= k < period,
    ensures
        (base + k) % period == k,
{
    assert((base + k) % period == k) by (nonlinear_arith)
        requires
            period > 0,
            base >= 0,
            base % period == 0,
            0 <= k < period,
    ;
}

/// Model input made from a spectrogram of the usual bands that has at
/// least one frame and at most the target number has shape
/// `(1, 1001, 64)`.
pub proof fn lemma_shaped_to_target_length(mel: MelSpectrogram, tensor: MelTensor)
    requires
        is_shaped_from(tensor, mel),
        mel.bands() == N_MELS,
        1 <= mel.frames() <= TARGET_LENGTH,
    ensures
        tensor.frames() == 1001,
        tensor.bands() == 64,
{
}

} // verus!
