//! Ingestion: what is done with a file that was found, what is written
//! for a new file, and how a run over all files proceeds.
//!
//! Reading files, running the model and writing to the catalog are the
//! caller's work. The caller reports each outcome here and is told what
//! comes next.

use crate::codec::{encode_embedding, encoded};
use crate::embedder::EmbedError;
use crate::mel::MelError;
use crate::segmentation::FileSegment;
use vstd::endian::endianness;
use vstd::prelude::*;

verus! {

/// A file as it was found on disk: the hash of its content and where it
/// lies.
pub struct LoadedAudioFile {
    pub file_hash: String,
    pub file_path: String,
}

/// What the catalog holds for a hash.
pub struct AudioFileRow {
    pub file_path: String,
}

/// What is done with a file that was found.
#[derive(Debug, Clone, Copy, PartialEq, Eq, Structural)]
pub enum UpsertAction {
    /// The content is new: segment, embed and insert it.
    IndexNewFile,
    /// The content is known under another path: store the new path and
    /// embed nothing.
    UpdatePath,
    /// The content is known under this path: nothing to do.
    AlreadyIndexed,
}

/// What is done with a file found at `path` when the catalog holds
/// `existing` for its hash.
pub open spec fn upsert_action(existing: Option<Seq<char>>, path: Seq<char>) -> UpsertAction {
    match existing {
        None => UpsertAction::IndexNewFile,
        Some(known) => if known != path {
            UpsertAction::UpdatePath
        } else {
            UpsertAction::AlreadyIndexed
        },
    }
}

/// Decides what is done with a file that was found, from what the
/// catalog holds for its hash.
pub fn upsert_audio_file(
    existing_row: Option<&AudioFileRow>,
    audio_file: &LoadedAudioFile,
) -> (action: UpsertAction)
    ensures
        action == upsert_action(
            match existing_row {
                Some(row) => Some(row.file_path@),
                None => None,
            },
            audio_file.file_path@,
        ),
{
    match existing_row {
        None => UpsertAction::IndexNewFile,
        Some(row) => {
            if row.file_path == audio_file.file_path {
                UpsertAction::AlreadyIndexed
            } else {
                UpsertAction::UpdatePath
            }
        },
    }
}

/// Why a segment got no embedding.
#[derive(Debug)]
pub enum SegmentError {
    /// The mel pipeline did not take its samples; the text is the
    /// pipeline's report.
    Pipeline(String),
    /// Its spectrogram could not be put together or shaped.
    Mel(MelError),
    /// The embedder gave no embedding.
    Embed(EmbedError),
}

impl SegmentError {
    /// A copy of the error.
    pub fn duplicate(&self) -> (copy: Self)
        ensures
            copy == *self,
    {
        match self {
            SegmentError::Pipeline(report) => SegmentError::Pipeline(report.clone()),
            SegmentError::Mel(error) => SegmentError::Mel(*error),
            SegmentError::Embed(error) => SegmentError::Embed(error.duplicate()),
        }
    }
}

/// A segment of a file with its embedding.
#[derive(Debug)]
pub struct FileSegmentWithEmbedding {
    /// Where the segment starts, in whole seconds.
    pub starting_timestamp: u64,
    pub embedding: Vec<u32>,
}

/// The first failure among `outcomes`, if there is one.
pub open spec fn first_failure(outcomes: Seq<Result<Vec<u32>, SegmentError>>) -> Option<int>
    decreases outcomes.len(),
{
    if outcomes.len() == 0 {
        None
    } else {
        match first_failure(outcomes.drop_last()) {
            Some(i) => Some(i),
            None => if outcomes.last() is Err {
                Some(outcomes.len() - 1)
            } else {
                None
            },
        }
    }
}

/// The first failure is a failure, and nothing before it is; without a
/// first failure nothing failed.
pub proof fn lemma_first_failure(outcomes: Seq<Result<Vec<u32>, SegmentError>>)
    ensures
        match first_failure(outcomes) {
            Some(i) => 0 <= i < outcomes.len() && outcomes[i] is Err && forall|k: int|
                0 <= k < i ==> (#[trigger] outcomes[k]) is Ok,
            None => forall|k: int| 0 <= k < outcomes.len() ==> (#[trigger] outcomes[k]) is Ok,
        },
    decreases outcomes.len(),
{
    if outcomes.len() > 0 {
        let head = outcomes.drop_last();
        lemma_first_failure(head);
        match first_failure(head) {
            Some(i) => {
                assert(outcomes[i] == head[i]);
                assert forall|k: int| 0 <= k < i implies (#[trigger] outcomes[k]) is Ok by {
                    assert(outcomes[k] == head[k]);
                }
            },
            None => {
                assert forall|k: int| 0 <= k < outcomes.len() - 1 implies (
                #[trigger] outcomes[k]) is Ok by {
                    assert(outcomes[k] == head[k]);
                }
            },
        }
    }
}

/// The embedding that came of segment `i`, where one did.
pub open spec fn embedding_at(outcomes: Seq<Result<Vec<u32>, SegmentError>>, i: int) -> Seq<u32> {
    match outcomes[i] {
        Ok(embedding) => embedding@,
        Err(_) => Seq::empty(),
    }
}

/// Puts the embeddings of a file's segments with their segments.
/// `outcomes[i]` is what came of segment `i`. If any segment failed, the
/// file fails with the failure of the first such segment; otherwise every
/// segment comes back with its embedding, in order.
pub fn collect_segment_embeddings(
    segments: &Vec<FileSegment>,
    outcomes: &Vec<Result<Vec<u32>, SegmentError>>,
) -> (collected: Result<Vec<FileSegmentWithEmbedding>, SegmentError>)
    requires
        outcomes@.len() == segments@.len(),
    ensures
        match collected {
            Ok(embedded) => {
                &&& first_failure(outcomes@) is None
                &&& embedded@.len() == segments@.len()
                &&& forall|i: int|
                    0 <= i < embedded@.len() ==> (#[trigger] embedded@[i]).starting_timestamp
                        == segments@[i].starting_timestamp && embedding_at(outcomes@, i)
                        == embedded@[i].embedding@
            },
            Err(error) => first_failure(outcomes@) matches Some(i) && outcomes@[i] == Err::<
                Vec<u32>,
                SegmentError,
            >(error),
        },
{
    let n: usize = segments.len();
    let mut embedded: Vec<FileSegmentWithEmbedding> = Vec::new();
    let mut i: usize = 0;
    proof {
        assert(outcomes@.take(0) =~= Seq::<Result<Vec<u32>, SegmentError>>::empty());
    }
    while i < n
        invariant
            n == segments@.len(),
            n == outcomes@.len(),
            i <= n,
            first_failure(outcomes@.take(i as int)) is None,
            embedded@.len() == i,
            forall|k: int|
                0 <= k < i ==> (#[trigger] embedded@[k]).starting_timestamp
                    == segments@[k].starting_timestamp && embedding_at(outcomes@, k)
                    == embedded@[k].embedding@,
        decreases n - i,
    {
        proof {
            assert(outcomes@.take(i + 1).drop_last() =~= outcomes@.take(i as int));
            assert(outcomes@.take(i + 1).last() == outcomes@[i as int]);
        }
        match &outcomes[i] {
            Ok(embedding) => {
                embedded.push(
                    FileSegmentWithEmbedding {
                        starting_timestamp: segments[i].starting_timestamp,
                        embedding: embedding.clone(),
                    },
                );
            },
            Err(error) => {
                proof {
                    lemma_failure_stays_first(outcomes@, i as int);
                }
                return Err(error.duplicate());
            },
        }
        i = i + 1;
    }
    proof {
        assert(outcomes@.take(n as int) =~= outcomes@);
    }
    Ok(embedded)
}

/// A failure with no failure before it is the first failure of the whole
/// sequence.
proof fn lemma_failure_stays_first(outcomes: Seq<Result<Vec<u32>, SegmentError>>, at: int)
    requires
        0 <= at < outcomes.len(),
        outcomes[at] is Err,
        first_failure(outcomes.take(at)) is None,
    ensures
        first_failure(outcomes) == Some(at),
    decreases outcomes.len() - at,
{
    assert(outcomes.take(at + 1).drop_last() =~= outcomes.take(at));
    assert(outcomes.take(at + 1).last() == outcomes[at]);
    assert(first_failure(outcomes.take(at + 1)) == Some(at));
    lemma_first_failure_extends(outcomes, at + 1, at);
}

/// Once found, the first failure stays the first as the sequence grows.
proof fn lemma_first_failure_extends(
    outcomes: Seq<Result<Vec<u32>, SegmentError>>,
    upto: int,
    at: int,
)
    requires
        0 <= upto <= outcomes.len(),
        first_failure(outcomes.take(upto)) == Some(at),
    ensures
        first_failure(outcomes) == Some(at),
    decreases outcomes.len() - upto,
{
    if upto == outcomes.len() {
        assert(outcomes.take(upto) =~= outcomes);
    } else {
        assert(outcomes.take(upto + 1).drop_last() =~= outcomes.take(upto));
        lemma_first_failure_extends(outcomes, upto + 1, at);
    }
}

/// A row of the segment table.
pub struct SegmentRow {
    pub file_hash: String,
    /// Where the segment starts, in whole seconds.
    pub starting_timestamp: u64,
    /// The embedding as a blob.
    pub embedding: Vec<u8>,
}

/// What is written for a new file, all in one transaction: its row in the
/// file table and one row in the segment table for each segment.
pub struct NewFileRows {
    pub file_hash: String,
    pub file_path: String,
    pub segments: Vec<SegmentRow>,
}

/// `rows` is what is written for `audio_file` with the given segments.
pub open spec fn rows_of(
    rows: NewFileRows,
    audio_file: LoadedAudioFile,
    segments: Seq<FileSegmentWithEmbedding>,
) -> bool {
    &&& rows.file_hash@ == audio_file.file_hash@
    &&& rows.file_path@ == audio_file.file_path@
    &&& rows.segments@.len() == segments.len()
    &&& forall|i: int|
        0 <= i < segments.len() ==> {
            &&& (#[trigger] rows.segments@[i]).file_hash@ == audio_file.file_hash@
            &&& rows.segments@[i].starting_timestamp == segments[i].starting_timestamp
            &&& rows.segments@[i].embedding@ == encoded(endianness(), segments[i].embedding@)
        }
}

/// Makes the rows of a new file: the file under its hash and path, and
/// each segment under the file's hash with its timestamp and its
/// embedding as a blob.
pub fn index_new_file(
    audio_file: &LoadedAudioFile,
    segments_with_embeddings: &Vec<FileSegmentWithEmbedding>,
) -> (rows: NewFileRows)
    ensures
        rows_of(rows, *audio_file, segments_with_embeddings@),
{
    let n: usize = segments_with_embeddings.len();
    let mut segments: Vec<SegmentRow> = Vec::new();
    let mut i: usize = 0;
    while i < n
        invariant
            n == segments_with_embeddings@.len(),
            i <= n,
            segments@.len() == i,
            forall|k: int|
                0 <= k < i ==> {
                    &&& (#[trigger] segments@[k]).file_hash@ == audio_file.file_hash@
                    &&& segments@[k].starting_timestamp
                        == segments_with_embeddings@[k].starting_timestamp
                    &&& segments@[k].embedding@ == encoded(
                        endianness(),
                        segments_with_embeddings@[k].embedding@,
                    )
                },
        decreases n - i,
    {
        let segment = &segments_with_embeddings[i];
        segments.push(
            SegmentRow {
                file_hash: audio_file.file_hash.clone(),
                starting_timestamp: segment.starting_timestamp,
                embedding: encode_embedding(segment.embedding.as_slice()),
            },
        );
        i = i + 1;
    }
    NewFileRows {
        file_hash: audio_file.file_hash.clone(),
        file_path: audio_file.file_path.clone(),
        segments,
    }
}

} // verus!
