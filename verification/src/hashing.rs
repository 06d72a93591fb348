//! Content hashing of audio files.
//!
//! A file is identified by the 64-bit xxHash of its bytes under a fixed
//! seed, written as decimal text.

use crate::decimal::{decimal_digits, u64_to_decimal};
use std::hash::Hasher;
use twox_hash::XxHash64;
use vstd::prelude::*;
use vstd::slice::slice_subrange;

verus! {

/// Seed of every content hash.
pub const HASH_SEED: u64 = 1023489;

/// Number of bytes fed to the hasher at a time.
pub const READ_CHUNK: usize = 1024;

/// `twox_hash::XxHash64`, the streaming hasher. Nothing inside it is
/// looked at here.
#[verifier::external_type_specification]
#[verifier::external_body]
pub struct ExXxHash64(XxHash64);

/// The 64-bit xxHash of `data` under `seed`: what `XxHash64` returns from
/// `finish` after it was made with `seed` and has taken `data`.
pub uninterp spec fn xxh64(seed: u64, data: Seq<u8>) -> u64;

/// The seed that a hasher was made with.
pub uninterp spec fn hasher_seed(h: XxHash64) -> u64;

/// All bytes that were written to a hasher so far, in order.
pub uninterp spec fn hasher_bytes(h: XxHash64) -> Seq<u8>;

/// `XxHash64::with_seed`: a fresh hasher that remembers the seed and has
/// taken no bytes.
#[verifier::external_body]
fn hasher_with_seed(seed: u64) -> (h: XxHash64)
    ensures
        hasher_seed(h) == seed,
        hasher_bytes(h) == Seq::<u8>::empty(),
{
    XxHash64::with_seed(seed)
}

/// `Hasher::write` of `XxHash64`: the bytes are taken after those written
/// before; the seed stays. The hasher counts its input in a `u64`, so the
/// total must fit.
#[verifier::external_body]
fn hasher_write(h: &mut XxHash64, bytes: &[u8])
    requires
        hasher_bytes(*old(h)).len() + bytes@.len() <= u64::MAX,
    ensures
        hasher_seed(*final(h)) == hasher_seed(*old(h)),
        hasher_bytes(*final(h)) == hasher_bytes(*old(h)) + bytes@,
{
    h.write(bytes)
}

/// `Hasher::finish` of `XxHash64`: the hash of everything written so far
/// under the hasher's seed, however the writes were cut.
#[verifier::external_body]
fn hasher_finish(h: &XxHash64) -> (digest: u64)
    ensures
        digest == xxh64(hasher_seed(*h), hasher_bytes(*h)),
{
    h.finish()
}

/// The content hash of a file's bytes.
pub open spec fn file_hash(content: Seq<u8>) -> u64 {
    xxh64(HASH_SEED, content)
}

/// The content hash as it is stored: decimal text.
pub open spec fn file_hash_text(content: Seq<u8>) -> Seq<char> {
    decimal_digits(file_hash(content) as nat)
}

/// Incremental content hasher, for callers that read a file piece by piece.
pub struct ContentHasher {
    state: XxHash64,
    taken: u64,
}

impl ContentHasher {
    /// The bytes fed so far.
    pub closed spec fn fed(&self) -> Seq<u8> {
        hasher_bytes(self.state)
    }

    /// The hasher was made by `new` and fed only through `update`.
    pub closed spec fn wf(&self) -> bool {
        &&& hasher_seed(self.state) == HASH_SEED
        &&& self.taken == hasher_bytes(self.state).len()
    }

    pub fn new() -> (h: Self)
        ensures
            h.wf(),
            h.fed() == Seq::<u8>::empty(),
    {
        ContentHasher { state: hasher_with_seed(HASH_SEED), taken: 0 }
    }

    /// Number of bytes fed so far.
    pub fn len(&self) -> (n: u64)
        requires
            self.wf(),
        ensures
            n == self.fed().len(),
    {
        self.taken
    }

    /// Feeds one more piece of the file.
    pub fn update(&mut self, chunk: &[u8])
        requires
            old(self).wf(),
            old(self).fed().len() + chunk@.len() <= u64::MAX,
        ensures
            final(self).wf(),
            final(self).fed() == old(self).fed() + chunk@,
    {
        hasher_write(&mut self.state, chunk);
        self.taken = self.taken + chunk.len() as u64;
    }

    /// The hash text of everything fed so far.
    pub fn finish(&self) -> (digest: String)
        requires
            self.wf(),
        ensures
            digest@ == file_hash_text(self.fed()),
    {
        u64_to_decimal(hasher_finish(&self.state))
    }
}

/// Hashes a file's bytes, feeding them in pieces of `READ_CHUNK` bytes.
pub fn compute_hash(content: &[u8]) -> (digest: String)
    ensures
        digest@ == file_hash_text(content@),
{
    let mut hasher = ContentHasher::new();
    let n: usize = content.len();
    let mut at: usize = 0;
    while at < n
        invariant
            n == content@.len(),
            at <= n,
            hasher.wf(),
            hasher.fed() == content@.subrange(0, at as int),
        decreases n - at,
    {
        let end: usize = if n - at > READ_CHUNK {
            at + READ_CHUNK
        } else {
            n
        };
        let chunk = slice_subrange(content, at, end);
        hasher.update(chunk);
        proof {
            assert(content@.subrange(0, at as int) + content@.subrange(at as int, end as int)
                =~= content@.subrange(0, end as int));
        }
        at = end;
    }
    proof {
        assert(content@.subrange(0, n as int) =~= content@);
    }
    hasher.finish()
}

/// The hash of a file depends on its bytes alone: however a file is cut
/// into pieces, feeding the pieces in order gives the hash of their
/// concatenation, so two files with the same bytes get the same hash text.
pub proof fn lemma_hash_depends_on_content_only(first: Seq<Seq<u8>>, second: Seq<Seq<u8>>)
    requires
        first.flatten() == second.flatten(),
    ensures
        file_hash_text(first.flatten()) == file_hash_text(second.flatten()),
        file_hash(first.flatten()) == file_hash(second.flatten()),
{
}

} // verus!
