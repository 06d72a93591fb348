//! Byte encoding of embedding vectors.
//!
//! An embedding is a vector of 32-bit floats, held here as IEEE-754 bit
//! patterns. Its blob is the concatenation of the four bytes of each
//! coordinate in the byte order of the host, so a blob is only meaningful
//! on a host of the same byte order as the one that wrote it.

use vstd::endian::{endianness, Endian};
use vstd::prelude::*;

verus! {

/// Number of coordinates of every embedding.
pub const EMBEDDING_DIM: usize = 512;

/// Number of bytes of one coordinate.
pub const COORD_BYTES: usize = 4;

/// The four bytes of a word, least significant first.
pub open spec fn le_bytes(x: u32) -> Seq<u8> {
    seq![
        (x % 256) as u8,
        (x / 256 % 256) as u8,
        (x / 65536 % 256) as u8,
        (x / 16777216) as u8,
    ]
}

/// The word whose bytes, least significant first, are `b`.
pub open spec fn from_le_bytes(b: Seq<u8>) -> u32 {
    (b[0] + 256 * b[1] + 65536 * b[2] + 16777216 * b[3]) as u32
}

/// The four bytes of a word in the given byte order.
pub open spec fn word_bytes(order: Endian, x: u32) -> Seq<u8> {
    match order {
        Endian::Little => le_bytes(x),
        Endian::Big => le_bytes(x).reverse(),
    }
}

/// The word that four bytes stand for in the given byte order.
pub open spec fn word_from_bytes(order: Endian, b: Seq<u8>) -> u32 {
    match order {
        Endian::Little => from_le_bytes(b),
        Endian::Big => from_le_bytes(b.reverse()),
    }
}

/// The blob of an embedding in the given byte order.
pub open spec fn encoded(order: Endian, embedding: Seq<u32>) -> Seq<u8> {
    Seq::new(4 * embedding.len(), |i: int| word_bytes(order, embedding[i / 4])[i % 4])
}

/// A blob can be cut into whole coordinates.
pub open spec fn well_formed_blob(blob: Seq<u8>) -> bool {
    blob.len() % 4 == 0
}

/// The embedding that a well-formed blob stands for in the given byte
/// order.
pub open spec fn decoded(order: Endian, blob: Seq<u8>) -> Seq<u32> {
    Seq::new(blob.len() / 4, |i: int| word_from_bytes(order, blob.subrange(4 * i, 4 * i + 4)))
}

/// Four bytes and back give the same word, in either byte order.
pub proof fn lemma_word_round_trip(order: Endian, x: u32)
    ensures
        word_bytes(order, x).len() == 4,
        word_from_bytes(order, word_bytes(order, x)) == x,
{
    let b = le_bytes(x);
    assert(b.len() == 4);
    assert(from_le_bytes(b) == x);
    assert(b.reverse().reverse() =~= b);
    assert(b.reverse().len() == 4);
}

/// Decoding the blob of an embedding gives the embedding back, coordinate
/// for coordinate and bit for bit, and the blob has four bytes for each
/// coordinate.
pub proof fn lemma_codec_round_trip(order: Endian, embedding: Seq<u32>)
    ensures
        encoded(order, embedding).len() == 4 * embedding.len(),
        well_formed_blob(encoded(order, embedding)),
        decoded(order, encoded(order, embedding)) == embedding,
{
    let blob = encoded(order, embedding);
    let back = decoded(order, blob);
    assert(back.len() == embedding.len());
    assert forall|i: int| 0 <= i < embedding.len() implies back[i] == embedding[i] by {
        let piece = blob.subrange(4 * i, 4 * i + 4);
        let word = word_bytes(order, embedding[i]);
        lemma_word_round_trip(order, embedding[i]);
        assert forall|k: int| 0 <= k < 4 implies piece[k] == word[k] by {
            assert(piece[k] == blob[4 * i + k]);
            assert((4 * i + k) / 4 == i);
            assert((4 * i + k) % 4 == k);
        }
        assert(piece =~= word);
    }
    assert(back =~= embedding);
}

/// `u32::to_ne_bytes`: the bytes of a word as the host lays them out in
/// memory, that is least significant first on a little-endian host and
/// most significant first on a big-endian one.
#[verifier::external_body]
fn to_ne_bytes(x: u32) -> (bytes: [u8; 4])
    ensures
        bytes@ == word_bytes(endianness(), x),
{
    x.to_ne_bytes()
}

/// `u32::from_ne_bytes`: the word that the host reads from four bytes of
/// memory, the inverse of `u32::to_ne_bytes`.
#[verifier::external_body]
fn from_ne_bytes(bytes: [u8; 4]) -> (x: u32)
    ensures
        x == word_from_bytes(endianness(), bytes@),
{
    u32::from_ne_bytes(bytes)
}

/// A blob whose length is not a multiple of four.
#[derive(Debug, Clone, Copy, PartialEq, Eq, Structural)]
pub struct MalformedEmbedding {
    /// Length of the rejected blob in bytes.
    pub len: usize,
}

/// Writes an embedding as a blob in the host's byte order.
pub fn encode_embedding(embedding: &[u32]) -> (blob: Vec<u8>)
    ensures
        blob@ == encoded(endianness(), embedding@),
        blob@.len() == 4 * embedding@.len(),
{
    let n: usize = embedding.len();
    let mut blob: Vec<u8> = Vec::new();
    let mut i: usize = 0;
    while i < n
        invariant
            n == embedding@.len(),
            i <= n,
            blob@.len() == 4 * i,
            forall|j: int|
                0 <= j < 4 * i ==> blob@[j] == word_bytes(endianness(), embedding@[j / 4])[j % 4],
        decreases n - i,
    {
        let word = to_ne_bytes(embedding[i]);
        proof {
            lemma_word_round_trip(endianness(), embedding@[i as int]);
        }
        let ghost before = blob@;
        blob.push(word[0]);
        blob.push(word[1]);
        blob.push(word[2]);
        blob.push(word[3]);
        proof {
            assert forall|j: int| 0 <= j < 4 * (i + 1) implies blob@[j] == word_bytes(
                endianness(),
                embedding@[j / 4],
            )[j % 4] by {
                if j < 4 * i {
                    assert(blob@[j] == before[j]);
                } else {
                    assert(j / 4 == i);
                    assert(j % 4 == j - 4 * i);
                }
            }
        }
        i = i + 1;
    }
    proof {
        assert(blob@ =~= encoded(endianness(), embedding@));
    }
    blob
}

/// Reads an embedding from a blob in the host's byte order. A blob whose
/// length is not a multiple of four is rejected, and no other.
pub fn decode_embedding(db_embedding: &[u8]) -> (embedding: Result<Vec<u32>, MalformedEmbedding>)
    ensures
        match embedding {
            Ok(v) => well_formed_blob(db_embedding@) && v@ == decoded(
                endianness(),
                db_embedding@,
            ),
            Err(e) => !well_formed_blob(db_embedding@) && e.len == db_embedding@.len(),
        },
{
    let n: usize = db_embedding.len();
    if n % 4 != 0 {
        return Err(MalformedEmbedding { len: n });
    }
    let count: usize = n / 4;
    let mut embedding: Vec<u32> = Vec::new();
    let mut i: usize = 0;
    while i < count
        invariant
            n == db_embedding@.len(),
            n % 4 == 0,
            count == n / 4,
            i <= count,
            embedding@.len() == i,
            forall|j: int|
                0 <= j < i ==> embedding@[j] == word_from_bytes(
                    endianness(),
                    db_embedding@.subrange(4 * j, 4 * j + 4),
                ),
        decreases count - i,
    {
        let at: usize = 4 * i;
        let piece: [u8; 4] = [
            db_embedding[at],
            db_embedding[at + 1],
            db_embedding[at + 2],
            db_embedding[at + 3],
        ];
        proof {
            assert(piece@ =~= db_embedding@.subrange(4 * i, 4 * i + 4));
        }
        embedding.push(from_ne_bytes(piece));
        i = i + 1;
    }
    proof {
        assert(embedding@ =~= decoded(endianness(), db_embedding@));
    }
    Ok(embedding)
}

/// What `decode_embedding` returns for what `encode_embedding` wrote: the
/// embedding itself.
pub proof fn lemma_decode_inverts_encode(embedding: Seq<u32>)
    ensures
        well_formed_blob(encoded(endianness(), embedding)),
        decoded(endianness(), encoded(endianness(), embedding)) == embedding,
{
    lemma_codec_round_trip(endianness(), embedding);
}

} // verus!
