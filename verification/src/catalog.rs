//! What ingestion does to the catalog, as a model.
//!
//! The catalog itself is a database that the caller owns. Its two tables
//! of audio are modelled here as maps, and an upsert as a step from one
//! catalog to the next, so that what a run over a library leaves behind
//! can be stated and proved.

use crate::ingest::{upsert_action, UpsertAction};
use vstd::prelude::*;

verus! {

/// Name of the catalog's file in the application's data directory.
pub const DATABASE_FILE: &'static str = "SonicSearch.sqlite";

/// Greatest number of connections of the pool.
pub const MAX_CONNECTIONS: u32 = 5;

/// Greatest age of a connection, in seconds.
pub const CONNECTION_MAX_LIFETIME_SECONDS: u64 = 600;

/// How long a task waits for a connection, in seconds. Ingestion holds
/// connections while batches are embedded, so the wait is long.
pub const ACQUIRE_TIMEOUT_SECONDS: u64 = 900;

/// How long a statement waits for a busy database, in seconds.
pub const BUSY_TIMEOUT_SECONDS: u64 = 600;

/// The segment rows of one file: for each, its timestamp and its
/// embedding as a blob.
pub type SegmentRows = Seq<(u64, Seq<u8>)>;

/// The audio tables of the catalog: the path of every known hash, and the
/// segment rows of every hash that has some.
pub struct Catalog {
    pub files: Map<Seq<char>, Seq<char>>,
    pub segments: Map<Seq<char>, SegmentRows>,
}

/// A file as a run finds it: the hash of its content, its path, and the
/// segment rows that would be made for it if it were new.
pub struct FoundFile {
    pub hash: Seq<char>,
    pub path: Seq<char>,
    pub segments: SegmentRows,
}

/// What the catalog holds for a hash.
pub open spec fn lookup_by_hash(catalog: Catalog, hash: Seq<char>) -> Option<Seq<char>> {
    if catalog.files.contains_key(hash) {
        Some(catalog.files[hash])
    } else {
        None
    }
}

/// Every segment row belongs to a file of the catalog.
pub open spec fn references_hold(catalog: Catalog) -> bool {
    forall|hash: Seq<char>| #[trigger]
        catalog.segments.contains_key(hash) ==> catalog.files.contains_key(hash)
}

/// The catalog after the upsert of one file: a new hash is inserted with
/// its path and its segment rows, a known hash under another path gets
/// the new path, and a known hash under the same path changes nothing.
pub open spec fn after_upsert(catalog: Catalog, file: FoundFile) -> Catalog {
    match upsert_action(lookup_by_hash(catalog, file.hash), file.path) {
        UpsertAction::IndexNewFile => Catalog {
            files: catalog.files.insert(file.hash, file.path),
            segments: catalog.segments.insert(file.hash, file.segments),
        },
        UpsertAction::UpdatePath => Catalog {
            files: catalog.files.insert(file.hash, file.path),
            segments: catalog.segments,
        },
        UpsertAction::AlreadyIndexed => catalog,
    }
}

/// The catalog after a run that found the given files, one upsert after
/// the other.
pub open spec fn after_run(catalog: Catalog, found: Seq<FoundFile>) -> Catalog
    decreases found.len(),
{
    if found.len() == 0 {
        catalog
    } else {
        after_upsert(after_run(catalog, found.drop_last()), found.last())
    }
}

/// The path under which a run last found the hash, if it found it.
pub open spec fn last_path(found: Seq<FoundFile>, hash: Seq<char>) -> Option<Seq<char>>
    decreases found.len(),
{
    if found.len() == 0 {
        None
    } else if found.last().hash == hash {
        Some(found.last().path)
    } else {
        last_path(found.drop_last(), hash)
    }
}

/// An upsert leaves the file's hash in the catalog under the file's path
/// and touches no other file; it writes segment rows only for a hash that
/// was not known.
pub proof fn lemma_after_upsert(catalog: Catalog, file: FoundFile)
    ensures
        after_upsert(catalog, file).files == catalog.files.insert(file.hash, file.path),
        after_upsert(catalog, file).segments == if catalog.files.contains_key(file.hash) {
            catalog.segments
        } else {
            catalog.segments.insert(file.hash, file.segments)
        },
{
    assert(after_upsert(catalog, file).files =~= catalog.files.insert(file.hash, file.path));
}

/// An upsert keeps every segment row with a file.
pub proof fn lemma_upsert_keeps_references(catalog: Catalog, file: FoundFile)
    requires
        references_hold(catalog),
    ensures
        references_hold(after_upsert(catalog, file)),
{
    lemma_after_upsert(catalog, file);
    let after = after_upsert(catalog, file);
    assert forall|hash: Seq<char>| #[trigger]
        after.segments.contains_key(hash) implies after.files.contains_key(hash) by {
        if hash != file.hash {
            assert(catalog.segments.contains_key(hash));
        }
    }
}

/// The upsert of a file that was just upserted changes nothing, whatever
/// segment rows would be made for it the second time.
pub proof fn lemma_upsert_twice(catalog: Catalog, file: FoundFile, again: FoundFile)
    requires
        again.hash == file.hash,
        again.path == file.path,
    ensures
        upsert_action(lookup_by_hash(after_upsert(catalog, file), again.hash), again.path)
            == UpsertAction::AlreadyIndexed,
        after_upsert(after_upsert(catalog, file), again) == after_upsert(catalog, file),
{
    lemma_after_upsert(catalog, file);
}

/// A file that has moved keeps its hash and its segment rows: the upsert
/// of a known hash found under a new path stores the new path and changes
/// nothing else.
pub proof fn lemma_move_keeps_hash_and_segments(catalog: Catalog, file: FoundFile)
    requires
        catalog.files.contains_key(file.hash),
        catalog.files[file.hash] != file.path,
    ensures
        upsert_action(lookup_by_hash(catalog, file.hash), file.path) == UpsertAction::UpdatePath,
        after_upsert(catalog, file).files.dom() == catalog.files.dom(),
        after_upsert(catalog, file).files[file.hash] == file.path,
        forall|hash: Seq<char>|
            hash != file.hash && catalog.files.contains_key(hash) ==> #[trigger] after_upsert(
                catalog,
                file,
            ).files[hash] == catalog.files[hash],
        after_upsert(catalog, file).segments == catalog.segments,
{
    assert(after_upsert(catalog, file).files.dom() =~= catalog.files.dom());
}

/// After a run the catalog knows the hashes it knew and those that were
/// found; a hash that was found lies under the path where it was found
/// last, and every other hash where it lay.
pub proof fn lemma_files_after_run(catalog: Catalog, found: Seq<FoundFile>, hash: Seq<char>)
    ensures
        after_run(catalog, found).files.contains_key(hash) <==> catalog.files.contains_key(hash)
            || last_path(found, hash) is Some,
        after_run(catalog, found).files.contains_key(hash) ==> after_run(catalog, found).files[hash]
            == match last_path(found, hash) {
            Some(path) => path,
            None => catalog.files[hash],
        },
    decreases found.len(),
{
    if found.len() > 0 {
        lemma_files_after_run(catalog, found.drop_last(), hash);
        lemma_after_upsert(after_run(catalog, found.drop_last()), found.last());
    }
}

/// A run that finds only known hashes writes no segment rows and brings
/// no new hash into the catalog.
pub proof fn lemma_known_files_keep_segments(catalog: Catalog, found: Seq<FoundFile>)
    requires
        forall|i: int|
            0 <= i < found.len() ==> catalog.files.contains_key((#[trigger] found[i]).hash),
    ensures
        after_run(catalog, found).segments == catalog.segments,
        after_run(catalog, found).files.dom() == catalog.files.dom(),
    decreases found.len(),
{
    if found.len() > 0 {
        let head = found.drop_last();
        assert forall|i: int| 0 <= i < head.len() implies catalog.files.contains_key(
            (#[trigger] head[i]).hash,
        ) by {
            assert(head[i] == found[i]);
        }
        lemma_known_files_keep_segments(catalog, head);
        let before = after_run(catalog, head);
        lemma_after_upsert(before, found.last());
        assert(before.files.dom().contains(found.last().hash)) by {
            assert(catalog.files.contains_key(found[found.len() - 1].hash));
        }
        assert(after_run(catalog, found).files.dom() =~= catalog.files.dom());
    }
}

/// A hash that a run found has a last path.
pub proof fn lemma_found_has_last_path(found: Seq<FoundFile>, i: int)
    requires
        0 <= i < found.len(),
    ensures
        last_path(found, found[i].hash) is Some,
    decreases found.len(),
{
    if i < found.len() - 1 && found.last().hash != found[i].hash {
        assert(found.drop_last()[i] == found[i]);
        lemma_found_has_last_path(found.drop_last(), i);
    }
}

/// A second run over an unchanged library leaves the catalog as the first
/// run left it: the same files under the same paths with the same segment
/// rows, whatever rows the second run would make for a file.
pub proof fn lemma_second_run_changes_nothing(
    catalog: Catalog,
    first: Seq<FoundFile>,
    second: Seq<FoundFile>,
)
    requires
        first.len() == second.len(),
        forall|i: int|
            0 <= i < first.len() ==> (#[trigger] first[i]).hash == second[i].hash && first[i].path
                == second[i].path,
    ensures
        after_run(after_run(catalog, first), second) == after_run(catalog, first),
{
    let once = after_run(catalog, first);
    let twice = after_run(once, second);
    assert forall|i: int| 0 <= i < second.len() implies once.files.contains_key(
        (#[trigger] second[i]).hash,
    ) by {
        lemma_found_has_last_path(first, i);
        lemma_files_after_run(catalog, first, first[i].hash);
    }
    lemma_known_files_keep_segments(once, second);
    assert forall|hash: Seq<char>| #[trigger]
        once.files.contains_key(hash) implies twice.files[hash] == once.files[hash] by {
        lemma_files_after_run(once, second, hash);
        lemma_files_after_run(catalog, first, hash);
        lemma_last_path_agrees(first, second, hash);
    }
    assert(twice.files =~= once.files);
}

/// Two runs that found the same hashes under the same paths found each
/// hash last under the same path.
pub proof fn lemma_last_path_agrees(first: Seq<FoundFile>, second: Seq<FoundFile>, hash: Seq<char>)
    requires
        first.len() == second.len(),
        forall|i: int|
            0 <= i < first.len() ==> (#[trigger] first[i]).hash == second[i].hash && first[i].path
                == second[i].path,
    ensures
        last_path(first, hash) == last_path(second, hash),
    decreases first.len(),
{
    if first.len() > 0 {
        assert(first.last().hash == second.last().hash && first.last().path == second.last().path)
            by {
            assert(first[first.len() - 1].hash == second[first.len() - 1].hash);
        }
        let a = first.drop_last();
        let b = second.drop_last();
        assert forall|i: int| 0 <= i < a.len() implies (#[trigger] a[i]).hash == b[i].hash
            && a[i].path == b[i].path by {
            assert(a[i] == first[i] && b[i] == second[i]);
        }
        lemma_last_path_agrees(a, b, hash);
    }
}

} // verus!
