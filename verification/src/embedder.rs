//! The batching side of the audio embedder.
//!
//! Many ingestion tasks submit one model input each; a single worker
//! drains all that has been submitted, runs the audio tower once on the
//! whole batch and hands every submitter its own row of the output. This
//! module holds the queue and the shaping and pairing of batches. The
//! caller owns the model session and the channels: a submission is
//! answered under the ticket that it was given.

use crate::mel::MelTensor;
use vstd::prelude::*;

verus! {

/// Where the audio tower lies among the resources.
pub const AUDIO_MODEL_RESOURCE: &'static str =
    "onnx_models/clap-htsat-unfused_audio_with_projection.onnx";

/// One submission: the model input and the ticket under which its
/// submitter waits for the reply.
pub struct MelSpecAndSender(pub MelTensor, pub u64);

/// Why a submission got no embedding.
#[derive(Debug)]
pub enum EmbedError {
    /// The inputs of a batch do not all have the same shape, or there is
    /// none.
    BatchShape,
    /// The model run failed; the text is the runtime's report.
    InferenceError(String),
    /// The model output cannot be cut into one row per batch entry.
    OutputShape,
    /// The worker went away before it replied.
    EmbedderClosed,
}

impl EmbedError {
    /// A copy of the error.
    pub fn duplicate(&self) -> (copy: Self)
        ensures
            copy == *self,
    {
        match self {
            EmbedError::BatchShape => EmbedError::BatchShape,
            EmbedError::InferenceError(report) => EmbedError::InferenceError(report.clone()),
            EmbedError::OutputShape => EmbedError::OutputShape,
            EmbedError::EmbedderClosed => EmbedError::EmbedderClosed,
        }
    }
}

/// What the worker does next.
pub enum WorkerStep {
    /// Run the model on these submissions, in this order.
    Run(Vec<MelSpecAndSender>),
    /// Nothing is queued: sleep until a submission or a stop arrives.
    Wait,
    /// Nothing is queued and a stop was asked for: leave the loop.
    Exit,
}

/// The queue of the audio embedder.
pub struct AudioEmbedder {
    input_queue: Vec<MelSpecAndSender>,
    issued: u64,
    stop_requested: bool,
}

/// The tickets of `queue` increase strictly and lie below `bound`.
pub open spec fn tickets_ascend(queue: Seq<MelSpecAndSender>, bound: int) -> bool {
    &&& forall|i: int, j: int| 0 <= i < j < queue.len() ==> queue[i].1 < queue[j].1
    &&& forall|i: int| 0 <= i < queue.len() ==> (#[trigger] queue[i]).1 < bound
}

/// Every input of `queue` is well formed.
pub open spec fn inputs_wf(queue: Seq<MelSpecAndSender>) -> bool {
    forall|i: int| 0 <= i < queue.len() ==> (#[trigger] queue[i]).0.wf()
}

impl AudioEmbedder {
    /// The submissions that wait for the worker, oldest first.
    pub closed spec fn queue(&self) -> Seq<MelSpecAndSender> {
        self.input_queue@
    }

    /// Number of tickets given out so far; also the next ticket.
    pub closed spec fn issued(&self) -> int {
        self.issued as int
    }

    /// A stop was asked for and the worker has not left yet.
    pub closed spec fn stopping(&self) -> bool {
        self.stop_requested
    }

    /// Queued tickets are distinct, in order of submission, and were all
    /// given out by this queue.
    pub open spec fn wf(&self) -> bool {
        &&& tickets_ascend(self.queue(), self.issued())
        &&& inputs_wf(self.queue())
        &&& 0 <= self.issued() <= u64::MAX
    }

    /// An empty queue that has given out no ticket.
    pub fn new() -> (embedder: Self)
        ensures
            embedder.wf(),
            embedder.queue() == Seq::<MelSpecAndSender>::empty(),
            embedder.issued() == 0,
            !embedder.stopping(),
    {
        AudioEmbedder { input_queue: Vec::new(), issued: 0, stop_requested: false }
    }

    /// Number of submissions that wait for the worker.
    pub fn pending(&self) -> (n: usize)
        ensures
            n == self.queue().len(),
    {
        self.input_queue.len()
    }

    /// Whether another ticket can be given out.
    pub fn has_ticket_left(&self) -> (left: bool)
        ensures
            left == (self.issued() < u64::MAX),
    {
        self.issued < u64::MAX
    }

    /// Queues one model input behind all earlier ones and returns the
    /// ticket under which its embedding will be delivered.
    pub fn queue_for_batch_processing(&mut self, input: MelTensor) -> (ticket: u64)
        requires
            old(self).wf(),
            input.wf(),
            old(self).issued() < u64::MAX,
        ensures
            final(self).wf(),
            ticket == old(self).issued(),
            final(self).issued() == old(self).issued() + 1,
            final(self).queue() == old(self).queue().push(MelSpecAndSender(input, ticket)),
            final(self).stopping() == old(self).stopping(),
    {
        let ticket: u64 = self.issued;
        self.input_queue.push(MelSpecAndSender(input, ticket));
        self.issued = ticket + 1;
        ticket
    }

    /// One turn of the worker. Everything queued is taken at once, in
    /// order of submission, for one model run. With nothing queued the
    /// worker leaves if a stop was asked for, and that request is then
    /// used up; otherwise it waits.
    pub fn begin_processing_queue(&mut self) -> (step: WorkerStep)
        requires
            old(self).wf(),
        ensures
            final(self).wf(),
            final(self).issued() == old(self).issued(),
            final(self).queue() == Seq::<MelSpecAndSender>::empty(),
            old(self).queue().len() > 0 ==> (step matches WorkerStep::Run(batch) && batch@ == old(
                self).queue() && final(self).stopping() == old(self).stopping()),
            old(self).queue().len() == 0 ==> !final(self).stopping() && if old(self).stopping() {
                step is Exit
            } else {
                step is Wait
            },
    {
        if self.input_queue.len() > 0 {
            let mut batch: Vec<MelSpecAndSender> = Vec::new();
            core::mem::swap(&mut self.input_queue, &mut batch);
            WorkerStep::Run(batch)
        } else if self.stop_requested {
            self.stop_requested = false;
            WorkerStep::Exit
        } else {
            assert(self.input_queue@ =~= Seq::<MelSpecAndSender>::empty());
            WorkerStep::Wait
        }
    }

    /// Asks the worker to leave once nothing is queued.
    pub fn stop_processing_queue(&mut self)
        ensures
            final(self).stopping(),
            final(self).queue() == old(self).queue(),
            final(self).issued() == old(self).issued(),
    {
        self.stop_requested = true;
    }
}

/// The inputs of a batch stacked on a new leading axis: shape
/// `(batch, 1, frames, n_mels)`, values laid out with the last axis
/// running fastest.
pub struct BatchTensor {
    pub batch: usize,
    pub frames: usize,
    pub n_mels: usize,
    pub values: Vec<u64>,
}

impl BatchTensor {
    /// The shape of the tensor, leading axis first.
    pub fn shape(&self) -> (shape: [usize; 4])
        ensures
            shape@ == seq![self.batch, 1usize, self.frames, self.n_mels],
    {
        let shape: [usize; 4] = [self.batch, 1, self.frames, self.n_mels];
        assert(shape@ =~= seq![self.batch, 1usize, self.frames, self.n_mels]);
        shape
    }
}

/// Position of the value `(b, 0, t, m)` in the layout of a batch.
pub open spec fn flat_index(frames: int, n_mels: int, b: int, t: int, m: int) -> int {
    (b * frames + t) * n_mels + m
}

/// `tensor` is the stack of the inputs of `batch`.
pub open spec fn is_stack_of(tensor: BatchTensor, batch: Seq<MelSpecAndSender>) -> bool {
    &&& tensor.batch == batch.len()
    &&& tensor.values@.len() == tensor.batch * tensor.frames * tensor.n_mels
    &&& forall|b: int|
        0 <= b < batch.len() ==> (#[trigger] batch[b]).0.frames() == tensor.frames
            && batch[b].0.bands() == tensor.n_mels
    &&& forall|b: int, t: int, m: int|
        0 <= b < tensor.batch && 0 <= t < tensor.frames && 0 <= m < tensor.n_mels
            ==> tensor.values@[flat_index(tensor.frames as int, tensor.n_mels as int, b, t, m)]
            == #[trigger] batch[b].0.at(t, m)
}

/// All inputs of `batch` have the shape of the first.
pub open spec fn same_shapes(batch: Seq<MelSpecAndSender>) -> bool {
    forall|b: int|
        0 <= b < batch.len() ==> (#[trigger] batch[b]).0.frames() == batch[0].0.frames()
            && batch[b].0.bands() == batch[0].0.bands()
}

/// The flat position of a cell lies before the end of its row's block and
/// inside the layout.
pub proof fn lemma_flat_index_bounds(
    batch: int,
    frames: int,
    n_mels: int,
    b: int,
    t: int,
    m: int,
)
    requires
        0 <= b < batch,
        0 <= t < frames,
        0 <= m < n_mels,
    ensures
        0 <= flat_index(frames, n_mels, b, t, m) < batch * frames * n_mels,
        flat_index(frames, n_mels, b, t, m) < (b * frames + t + 1) * n_mels,
        (b * frames + t) * n_mels <= flat_index(frames, n_mels, b, t, m),
        (b * frames + t + 1) * n_mels <= batch * frames * n_mels,
{
    let row = b * frames + t;
    assert(0 <= row < batch * frames) by (nonlinear_arith)
        requires
            0 <= b < batch,
            0 <= t < frames,
            row == b * frames + t,
    ;
    assert((row + 1) * n_mels <= batch * frames * n_mels) by (nonlinear_arith)
        requires
            0 <= row < batch * frames,
            0 < n_mels,
    ;
    assert(row * n_mels >= 0) by (nonlinear_arith)
        requires
            0 <= row,
            0 < n_mels,
    ;
    assert((row + 1) * n_mels == row * n_mels + n_mels) by (nonlinear_arith);
}

/// Stacks the inputs of a batch on a new leading axis. A batch whose
/// inputs differ in shape, or that is empty, is rejected.
pub fn stack_batch(batch: &Vec<MelSpecAndSender>) -> (stacked: Result<BatchTensor, EmbedError>)
    requires
        inputs_wf(batch@),
    ensures
        stacked is Ok <==> batch@.len() > 0 && same_shapes(batch@),
        stacked is Err ==> stacked matches Err(EmbedError::BatchShape),
        stacked matches Ok(tensor) ==> is_stack_of(tensor, batch@),
{
    let count: usize = batch.len();
    if count == 0 {
        return Err(EmbedError::BatchShape);
    }
    let frames: usize = batch[0].0.frame_count();
    let n_mels: usize = batch[0].0.n_mels();
    let mut b: usize = 0;
    while b < count
        invariant
            count == batch@.len(),
            count > 0,
            b <= count,
            frames == batch@[0].0.frames(),
            n_mels == batch@[0].0.bands(),
            forall|k: int|
                0 <= k < b ==> (#[trigger] batch@[k]).0.frames() == frames && batch@[k].0.bands()
                    == n_mels,
        decreases count - b,
    {
        if batch[b].0.frame_count() != frames || batch[b].0.n_mels() != n_mels {
            return Err(EmbedError::BatchShape);
        }
        b = b + 1;
    }
    let mut values: Vec<u64> = Vec::new();
    let mut b: usize = 0;
    proof {
        assert(0 * frames * n_mels == 0) by (nonlinear_arith);
    }
    while b < count
        invariant
            count == batch@.len(),
            b <= count,
            inputs_wf(batch@),
            forall|k: int|
                0 <= k < count ==> (#[trigger] batch@[k]).0.frames() == frames
                    && batch@[k].0.bands() == n_mels,
            values@.len() == b * frames * n_mels,
            forall|bb: int, t: int, m: int|
                0 <= bb < b && 0 <= t < frames && 0 <= m < n_mels ==> values@[flat_index(
                    frames as int,
                    n_mels as int,
                    bb,
                    t,
                    m,
                )] == #[trigger] batch@[bb].0.at(t, m),
        decreases count - b,
    {
        let input = &batch[b].0;
        let mut t: usize = 0;
        while t < frames
            invariant
                count == batch@.len(),
                b < count,
                t <= frames,
                input == &batch@[b as int].0,
                input.wf(),
                input.frames() == frames,
                input.bands() == n_mels,
                values@.len() == (b * frames + t) * n_mels,
                forall|bb: int, tt: int, m: int|
                    0 <= bb < b && 0 <= tt < frames && 0 <= m < n_mels ==> values@[flat_index(
                        frames as int,
                        n_mels as int,
                        bb,
                        tt,
                        m,
                    )] == #[trigger] batch@[bb].0.at(tt, m),
                forall|tt: int, m: int|
                    0 <= tt < t && 0 <= m < n_mels ==> values@[flat_index(
                        frames as int,
                        n_mels as int,
                        b as int,
                        tt,
                        m,
                    )] == #[trigger] input.at(tt, m),
            decreases frames - t,
        {
            let row = input.row(t);
            let ghost before = values@;
            values.extend_from_slice(row.as_slice());
            proof {
                let start = (b * frames + t) * n_mels;
                assert(values@ =~= before + row@);
                assert((b * frames + t + 1) * n_mels == start + n_mels) by (nonlinear_arith)
                    requires
                        start == (b * frames + t) * n_mels,
                ;
                assert forall|bb: int, tt: int, m: int|
                    0 <= bb < b && 0 <= tt < frames && 0 <= m < n_mels implies values@[flat_index(
                    frames as int,
                    n_mels as int,
                    bb,
                    tt,
                    m,
                )] == #[trigger] batch@[bb].0.at(tt, m) by {
                    lemma_flat_index_bounds(b as int, frames as int, n_mels as int, bb, tt, m);
                    let at = flat_index(frames as int, n_mels as int, bb, tt, m);
                    assert(b * frames * n_mels <= start) by (nonlinear_arith)
                        requires
                            start == (b * frames + t) * n_mels,
                            0 <= t,
                            0 <= n_mels,
                    ;
                    assert(at < before.len());
                    assert(values@[at] == before[at]);
                }
                assert forall|tt: int, m: int|
                    0 <= tt < t + 1 && 0 <= m < n_mels implies values@[flat_index(
                    frames as int,
                    n_mels as int,
                    b as int,
                    tt,
                    m,
                )] == #[trigger] input.at(tt, m) by {
                    let at = flat_index(frames as int, n_mels as int, b as int, tt, m);
                    if tt < t {
                        assert(at < start) by (nonlinear_arith)
                            requires
                                at == (b * frames + tt) * n_mels + m,
                                start == (b * frames + t) * n_mels,
                                0 <= tt < t,
                                0 <= m < n_mels,
                        ;
                        assert(at >= 0) by (nonlinear_arith)
                            requires
                                at == (b * frames + tt) * n_mels + m,
                                0 <= tt,
                                0 <= m < n_mels,
                                b >= 0,
                                frames >= 0,
                        ;
                        assert(values@[at] == before[at]);
                    } else {
                        assert(at == start + m);
                        assert(values@[at] == row@[m]);
                    }
                }
            }
            t = t + 1;
        }
        proof {
            assert((b * frames + frames) * n_mels == (b + 1) * frames * n_mels)
                by (nonlinear_arith);
        }
        b = b + 1;
    }
    let tensor = BatchTensor { batch: count, frames, n_mels, values };
    Ok(tensor)
}

/// Row `i` of a model output of `rows` rows laid out row by row.
pub open spec fn output_row(values: Seq<u32>, rows: int, i: int) -> Seq<u32> {
    let width = (values.len() as int) / rows;
    values.subrange(i * width, (i + 1) * width)
}

/// Cuts the output of a model run into one vector per batch entry.
/// `rows` is the length of the output's leading axis; all further axes
/// are flattened into the vector. An output that cannot be cut into `rows`
/// equal parts is rejected.
pub fn split_outputs(values: &[u32], rows: usize) -> (split: Result<Vec<Vec<u32>>, EmbedError>)
    ensures
        split is Ok <==> (rows == 0 && values@.len() == 0) || (rows > 0 && (values@.len() as int)
            % (rows as int) == 0),
        split is Err ==> split matches Err(EmbedError::OutputShape),
        split matches Ok(outputs) ==> {
            &&& outputs@.len() == rows
            &&& forall|i: int|
                0 <= i < rows ==> (#[trigger] outputs@[i])@ == output_row(values@, rows as int, i)
        },
{
    let len: usize = values.len();
    if rows == 0 {
        if len == 0 {
            return Ok(Vec::new());
        } else {
            return Err(EmbedError::OutputShape);
        }
    }
    if len % rows != 0 {
        return Err(EmbedError::OutputShape);
    }
    let width: usize = len / rows;
    let mut outputs: Vec<Vec<u32>> = Vec::new();
    let mut i: usize = 0;
    while i < rows
        invariant
            len == values@.len(),
            rows > 0,
            len % rows == 0,
            width == len / rows,
            i <= rows,
            outputs@.len() == i,
            forall|k: int|
                0 <= k < i ==> (#[trigger] outputs@[k])@ == output_row(values@, rows as int, k),
        decreases rows - i,
    {
        proof {
            assert((i + 1) * width <= rows * width) by (nonlinear_arith)
                requires
                    i + 1 <= rows,
                    0 <= width,
            ;
            assert(rows * width == len) by (nonlinear_arith)
                requires
                    width == len / rows,
                    len % rows == 0,
                    rows > 0,
            ;
            assert((i + 1) * width == i * width + width) by (nonlinear_arith);
            assert(i * width >= 0) by (nonlinear_arith)
                requires
                    0 <= i,
                    0 <= width,
            ;
        }
        let from: usize = i * width;
        let piece = vstd::slice::slice_subrange(values, from, from + width);
        let mut row: Vec<u32> = Vec::new();
        row.extend_from_slice(piece);
        proof {
            assert(row@ =~= output_row(values@, rows as int, i as int));
        }
        outputs.push(row);
        i = i + 1;
    }
    Ok(outputs)
}

/// What one submitter is told: its ticket and its embedding, or why there
/// is none.
pub struct Reply {
    pub ticket: u64,
    pub outcome: Result<Vec<u32>, EmbedError>,
}

/// `replies` answers the submissions of `batch` one for one and in order:
/// reply `i` carries the ticket of submission `i` and row `i` of the
/// model's output, or the failure of the run.
pub open spec fn replies_match(
    replies: Seq<Reply>,
    batch: Seq<MelSpecAndSender>,
    outcome: Result<Vec<Vec<u32>>, EmbedError>,
) -> bool {
    &&& replies.len() == batch.len()
    &&& forall|i: int|
        0 <= i < replies.len() ==> (#[trigger] replies[i]).ticket == batch[i].1
    &&& forall|i: int|
        0 <= i < replies.len() ==> match outcome {
            Ok(outputs) => ((#[trigger] replies[i]).outcome matches Ok(e) && e@ == outputs@[i]@),
            Err(error) => replies[i].outcome == Err::<Vec<u32>, EmbedError>(error),
        }
}

/// Pairs the rows of a model run with the submissions of the batch that
/// was run. On a failed run every submission of the batch gets the
/// failure.
pub fn pair_replies(
    batch: &Vec<MelSpecAndSender>,
    outcome: Result<Vec<Vec<u32>>, EmbedError>,
) -> (replies: Vec<Reply>)
    requires
        outcome matches Ok(outputs) ==> outputs@.len() == batch@.len(),
    ensures
        replies_match(replies@, batch@, outcome),
{
    let count: usize = batch.len();
    let mut replies: Vec<Reply> = Vec::new();
    let mut i: usize = 0;
    while i < count
        invariant
            count == batch@.len(),
            outcome matches Ok(outputs) ==> outputs@.len() == count,
            i <= count,
            replies@.len() == i,
            forall|k: int| 0 <= k < i ==> (#[trigger] replies@[k]).ticket == batch@[k].1,
            forall|k: int|
                0 <= k < i ==> match outcome {
                    Ok(outputs) => ((#[trigger] replies@[k]).outcome matches Ok(e) && e@
                        == outputs@[k]@),
                    Err(error) => replies@[k].outcome == Err::<Vec<u32>, EmbedError>(error),
                },
        decreases count - i,
    {
        let answer: Result<Vec<u32>, EmbedError> = match &outcome {
            Ok(outputs) => Ok(outputs[i].clone()),
            Err(error) => Err(error.duplicate()),
        };
        replies.push(Reply { ticket: batch[i].1, outcome: answer });
        i = i + 1;
    }
    replies
}

/// Submissions drained in one batch are answered in the order in which
/// they were queued: the reply at each position belongs to the submission
/// at that position, and no two replies share a ticket.
pub proof fn lemma_replies_correspond(
    replies: Seq<Reply>,
    batch: Seq<MelSpecAndSender>,
    outcome: Result<Vec<Vec<u32>>, EmbedError>,
    bound: int,
)
    requires
        tickets_ascend(batch, bound),
        replies_match(replies, batch, outcome),
    ensures
        forall|i: int, j: int|
            0 <= i < j < replies.len() ==> (#[trigger] replies[i]).ticket < (
            #[trigger] replies[j]).ticket,
        forall|i: int, j: int|
            0 <= i < replies.len() && 0 <= j < batch.len() && (#[trigger] replies[i]).ticket == (
            #[trigger] batch[j]).1 ==> i == j,
{
    assert forall|i: int, j: int|
        0 <= i < replies.len() && 0 <= j < batch.len() && (#[trigger] replies[i]).ticket == (
        #[trigger] batch[j]).1 implies i == j by {
        if i < j {
            assert(batch[i].1 < batch[j].1);
        } else if j < i {
            assert(batch[j].1 < batch[i].1);
        }
    }
}

} // verus!
