//! Turning the neighbours that the index found into search results.
//!
//! The neighbours of a query are put in order of their distance, nearest
//! first, and each is joined with the file and the timestamp of its
//! segment. Distances are 32-bit floats and timestamps 64-bit floats,
//! both held as bit patterns.

use vstd::prelude::*;

verus! {

/// A point that the index found near the query: the row of its segment
/// and its distance from the query.
#[derive(Debug, Clone, Copy, PartialEq, Eq, Structural)]
pub struct Neighbor {
    pub rowid: usize,
    pub distance: u32,
}

/// What the catalog holds for the segment in row `rowid`: the path of
/// its file and its timestamp.
pub struct SearchRow {
    pub rowid: usize,
    pub file_path: String,
    pub starting_timestamp: u64,
}

/// The catalog has no segment in this row.
#[derive(Debug, Clone, Copy, PartialEq, Eq, Structural)]
pub struct MissingSegment {
    pub rowid: usize,
}

/// One search result.
pub struct SearchResult {
    pub file_path: String,
    pub starting_timestamp: u64,
    pub distance: u32,
}

/// Where the float with the given bit pattern stands among the floats:
/// one float is less than another just when its rank is less. A float is
/// a sign and a magnitude, and magnitudes order as their bit patterns do;
/// both zeros have rank zero. The patterns of NaNs, which are no numbers,
/// rank beyond the infinities on the side of their sign.
pub open spec fn rank(bits: u32) -> int {
    if bits < 0x8000_0000 {
        bits as int
    } else {
        0x8000_0000 - bits
    }
}

/// Nearest first: no neighbour stands before one that is nearer.
pub open spec fn ascending(neighbors: Seq<Neighbor>) -> bool {
    forall|i: int, j: int|
        0 <= i < j < neighbors.len() ==> rank((#[trigger] neighbors[i]).distance) <= rank(
            (#[trigger] neighbors[j]).distance,
        )
}

/// Where `x` goes into `sorted`: behind every neighbour that is not
/// farther than `x`.
pub open spec fn insertion_point(sorted: Seq<Neighbor>, x: Neighbor) -> int
    decreases sorted.len(),
{
    if sorted.len() == 0 {
        0
    } else if rank(sorted.last().distance) > rank(x.distance) {
        insertion_point(sorted.drop_last(), x)
    } else {
        sorted.len() as int
    }
}

/// The neighbours in order of distance, nearest first; neighbours at the
/// same distance keep the order in which they came.
pub open spec fn sorted_by_distance(neighbors: Seq<Neighbor>) -> Seq<Neighbor>
    decreases neighbors.len(),
{
    if neighbors.len() == 0 {
        neighbors
    } else {
        let sorted = sorted_by_distance(neighbors.drop_last());
        sorted.insert(insertion_point(sorted, neighbors.last()), neighbors.last())
    }
}

/// The insertion point lies inside the sequence; what stands before it
/// is not farther than `x`, and what stands from it on is farther.
pub proof fn lemma_insertion_point(sorted: Seq<Neighbor>, x: Neighbor)
    requires
        ascending(sorted),
    ensures
        0 <= insertion_point(sorted, x) <= sorted.len(),
        forall|i: int|
            0 <= i < insertion_point(sorted, x) ==> rank((#[trigger] sorted[i]).distance) <= rank(
                x.distance,
            ),
        forall|i: int|
            insertion_point(sorted, x) <= i < sorted.len() ==> rank(
                (#[trigger] sorted[i]).distance,
            ) > rank(x.distance),
    decreases sorted.len(),
{
    if sorted.len() > 0 {
        if rank(sorted.last().distance) > rank(x.distance) {
            let head = sorted.drop_last();
            assert forall|i: int, j: int| 0 <= i < j < head.len() implies rank(
                (#[trigger] head[i]).distance,
            ) <= rank((#[trigger] head[j]).distance) by {
                assert(head[i] == sorted[i] && head[j] == sorted[j]);
            }
            lemma_insertion_point(head, x);
            assert forall|i: int| 0 <= i < insertion_point(sorted, x) implies rank(
                (#[trigger] sorted[i]).distance,
            ) <= rank(x.distance) by {
                assert(sorted[i] == head[i]);
            }
            assert forall|i: int| insertion_point(sorted, x) <= i < sorted.len() implies rank(
                (#[trigger] sorted[i]).distance,
            ) > rank(x.distance) by {
                if i < head.len() {
                    assert(sorted[i] == head[i]);
                }
            }
        } else {
            assert forall|i: int| 0 <= i < sorted.len() implies rank(
                (#[trigger] sorted[i]).distance,
            ) <= rank(x.distance) by {
                if i < sorted.len() - 1 {
                    assert(rank(sorted[i].distance) <= rank(sorted[sorted.len() - 1].distance));
                }
            }
        }
    }
}

/// The sorted neighbours are the given ones, each as often as it was
/// given, and they stand nearest first.
pub proof fn lemma_sorted_by_distance(neighbors: Seq<Neighbor>)
    ensures
        sorted_by_distance(neighbors).len() == neighbors.len(),
        sorted_by_distance(neighbors).to_multiset() == neighbors.to_multiset(),
        ascending(sorted_by_distance(neighbors)),
    decreases neighbors.len(),
{
    broadcast use vstd::seq_lib::group_to_multiset_ensures;

    if neighbors.len() == 0 {
    } else {
        let head = neighbors.drop_last();
        let x = neighbors.last();
        lemma_sorted_by_distance(head);
        let sorted = sorted_by_distance(head);
        lemma_insertion_point(sorted, x);
        let at = insertion_point(sorted, x);
        let out = sorted.insert(at, x);
        assert(out == sorted_by_distance(neighbors));
        assert(head.push(x) =~= neighbors);
        assert(out.to_multiset() == sorted.to_multiset().insert(x));
        assert(neighbors.to_multiset() == head.to_multiset().insert(x));
        assert forall|i: int, j: int| 0 <= i < j < out.len() implies rank(
            (#[trigger] out[i]).distance,
        ) <= rank((#[trigger] out[j]).distance) by {
            let a = if i < at {
                sorted[i]
            } else if i == at {
                x
            } else {
                sorted[i - 1]
            };
            let b = if j < at {
                sorted[j]
            } else if j == at {
                x
            } else {
                sorted[j - 1]
            };
            assert(out[i] == a && out[j] == b);
        }
    }
}

/// Whether the float with bit pattern `a` is greater than the one with
/// bit pattern `b`.
fn farther(a: u32, b: u32) -> (gt: bool)
    ensures
        gt == (rank(a) > rank(b)),
{
    let a_negative: bool = a >= 0x8000_0000;
    let b_negative: bool = b >= 0x8000_0000;
    if a_negative {
        if b_negative {
            // Both below or at zero: the greater magnitude is the lesser
            // float.
            a < b
        } else {
            false
        }
    } else {
        if b_negative {
            // A magnitude of zero under a minus sign is zero still.
            !(a == 0 && b == 0x8000_0000)
        } else {
            a > b
        }
    }
}

/// Puts the neighbours of a query in order of distance, nearest first.
/// Neighbours at the same distance keep their order.
pub fn sort_neighbors(neighbors: &Vec<Neighbor>) -> (sorted: Vec<Neighbor>)
    ensures
        sorted@ == sorted_by_distance(neighbors@),
        sorted@.len() == neighbors@.len(),
        sorted@.to_multiset() == neighbors@.to_multiset(),
        ascending(sorted@),
{
    let n: usize = neighbors.len();
    let mut sorted: Vec<Neighbor> = Vec::new();
    let mut i: usize = 0;
    proof {
        assert(neighbors@.take(0) =~= Seq::<Neighbor>::empty());
    }
    while i < n
        invariant
            n == neighbors@.len(),
            i <= n,
            sorted@ == sorted_by_distance(neighbors@.take(i as int)),
            sorted@.len() == i,
        decreases n - i,
    {
        let x: Neighbor = neighbors[i];
        let ghost before = sorted@;
        proof {
            lemma_sorted_by_distance(neighbors@.take(i as int));
            lemma_insertion_point(before, x);
            assert(before.take(before.len() as int) =~= before);
        }
        let mut at: usize = sorted.len();
        while at > 0 && farther(sorted[at - 1].distance, x.distance)
            invariant
                sorted@ == before,
                at <= before.len(),
                insertion_point(before, x) == insertion_point(before.take(at as int), x),
            decreases at,
        {
            proof {
                let upto = before.take(at as int);
                assert(upto.last() == before[at - 1]);
                assert(upto.drop_last() =~= before.take(at - 1));
            }
            at = at - 1;
        }
        proof {
            let upto = before.take(at as int);
            if at > 0 {
                assert(upto.last() == before[at - 1]);
            }
            assert(insertion_point(upto, x) == at);
            assert(neighbors@.take(i + 1).drop_last() =~= neighbors@.take(i as int));
            assert(neighbors@.take(i + 1).last() == x);
            assert(before.take(before.len() as int) =~= before);
        }
        sorted.insert(at, x);
        i = i + 1;
    }
    proof {
        assert(neighbors@.take(n as int) =~= neighbors@);
        lemma_sorted_by_distance(neighbors@);
    }
    sorted
}

/// Where the first row for `rowid` stands in `rows`, or their number if
/// there is none.
pub open spec fn position_of(rows: Seq<SearchRow>, rowid: usize) -> int
    decreases rows.len(),
{
    if rows.len() == 0 {
        0
    } else if rows.first().rowid == rowid {
        0
    } else {
        1 + position_of(rows.drop_first(), rowid)
    }
}

/// The position of a row id is that of the first row with that id.
pub proof fn lemma_position_of(rows: Seq<SearchRow>, rowid: usize)
    ensures
        0 <= position_of(rows, rowid) <= rows.len(),
        position_of(rows, rowid) < rows.len() ==> rows[position_of(rows, rowid)].rowid == rowid,
        forall|k: int| 0 <= k < position_of(rows, rowid) ==> (#[trigger] rows[k]).rowid != rowid,
    decreases rows.len(),
{
    if rows.len() > 0 && rows.first().rowid != rowid {
        let rest = rows.drop_first();
        lemma_position_of(rest, rowid);
        assert forall|k: int| 0 <= k < position_of(rows, rowid) implies (#[trigger] rows[k]).rowid
            != rowid by {
            if k > 0 {
                assert(rows[k] == rest[k - 1]);
            }
        }
    }
}

/// The catalog has a segment for every neighbour.
pub open spec fn all_found(neighbors: Seq<Neighbor>, rows: Seq<SearchRow>) -> bool {
    forall|i: int|
        0 <= i < neighbors.len() ==> position_of(rows, (#[trigger] neighbors[i]).rowid)
            < rows.len()
}

/// `results` are the neighbours joined with their segments, one for one
/// and in order.
pub open spec fn results_of(results: Seq<SearchResult>, neighbors: Seq<Neighbor>, rows: Seq<
    SearchRow,
>) -> bool {
    &&& results.len() == neighbors.len()
    &&& forall|i: int|
        0 <= i < results.len() ==> {
            let row = rows[position_of(rows, neighbors[i].rowid)];
            &&& (#[trigger] results[i]).file_path@ == row.file_path@
            &&& results[i].starting_timestamp == row.starting_timestamp
            &&& results[i].distance == neighbors[i].distance
        }
}

fn find_row(rows: &Vec<SearchRow>, rowid: usize) -> (at: usize)
    ensures
        at == position_of(rows@, rowid),
{
    let n: usize = rows.len();
    let mut at: usize = 0;
    proof {
        lemma_position_of(rows@, rowid);
    }
    while at < n && rows[at].rowid != rowid
        invariant
            n == rows@.len(),
            at <= n,
            at <= position_of(rows@, rowid),
            forall|k: int|
                0 <= k < position_of(rows@, rowid) ==> (#[trigger] rows@[k]).rowid != rowid,
            position_of(rows@, rowid) < n ==> rows@[position_of(rows@, rowid)].rowid == rowid,
        decreases n - at,
    {
        at = at + 1;
    }
    at
}

/// Makes the results of a query from the neighbours that the index found
/// and the segments that the catalog holds for them. The neighbours are
/// put in order of distance, nearest first, and each is joined with the
/// first of `rows` that has its row id. A neighbour without a segment in
/// the catalog fails the query; the error names the nearest such
/// neighbour.
pub fn get_knn(found: &Vec<Neighbor>, rows: &Vec<SearchRow>) -> (results: Result<
    Vec<SearchResult>,
    MissingSegment,
>)
    ensures
        results is Ok <==> all_found(sorted_by_distance(found@), rows@),
        results matches Ok(list) ==> results_of(list@, sorted_by_distance(found@), rows@),
        results matches Err(missing) ==> exists|i: int|
            0 <= i < found@.len() && (#[trigger] sorted_by_distance(found@)[i]).rowid
                == missing.rowid && position_of(rows@, missing.rowid) >= rows@.len() && all_found(
                sorted_by_distance(found@).take(i),
                rows@,
            ),
{
    let neighbors = sort_neighbors(found);
    let n: usize = neighbors.len();
    let mut results: Vec<SearchResult> = Vec::new();
    let mut i: usize = 0;
    while i < n
        invariant
            n == neighbors@.len(),
            neighbors@ == sorted_by_distance(found@),
            n == found@.len(),
            i <= n,
            all_found(neighbors@.take(i as int), rows@),
            results_of(results@, neighbors@.take(i as int), rows@),
        decreases n - i,
    {
        let neighbor: Neighbor = neighbors[i];
        let at: usize = find_row(rows, neighbor.rowid);
        if at >= rows.len() {
            return Err(MissingSegment { rowid: neighbor.rowid });
        }
        let ghost before = results@;
        results.push(
            SearchResult {
                file_path: rows[at].file_path.clone(),
                starting_timestamp: rows[at].starting_timestamp,
                distance: neighbor.distance,
            },
        );
        proof {
            let seen = neighbors@.take(i + 1);
            assert forall|k: int| 0 <= k < seen.len() implies position_of(
                rows@,
                (#[trigger] seen[k]).rowid,
            ) < rows@.len() by {
                if k < i {
                    assert(seen[k] == neighbors@.take(i as int)[k]);
                }
            }
            assert forall|k: int| 0 <= k < results@.len() implies {
                let row = rows@[position_of(rows@, seen[k].rowid)];
                &&& (#[trigger] results@[k]).file_path@ == row.file_path@
                &&& results@[k].starting_timestamp == row.starting_timestamp
                &&& results@[k].distance == seen[k].distance
            } by {
                if k < i {
                    assert(results@[k] == before[k]);
                    assert(seen[k] == neighbors@.take(i as int)[k]);
                }
            }
        }
        i = i + 1;
    }
    proof {
        assert(neighbors@.take(n as int) =~= neighbors@);
    }
    Ok(results)
}

/// A neighbour that is strictly nearer than every other stands first
/// after sorting.
pub proof fn lemma_strictly_nearest_is_first(found: Seq<Neighbor>, at: int)
    requires
        0 <= at < found.len(),
        forall|j: int|
            0 <= j < found.len() && j != at ==> rank(found[at].distance) < rank(
                (#[trigger] found[j]).distance,
            ),
    ensures
        sorted_by_distance(found).len() >= 1,
        sorted_by_distance(found)[0] == found[at],
{
    broadcast use vstd::seq_lib::group_to_multiset_ensures;

    lemma_sorted_by_distance(found);
    let sorted = sorted_by_distance(found);
    let first = sorted[0];
    assert(sorted.contains(first));
    assert(found.to_multiset().count(first) > 0);
    assert(found.contains(first));
    let j = choose|j: int| 0 <= j < found.len() && found[j] == first;
    if j != at {
        assert(found.contains(found[at]));
        assert(sorted.to_multiset().count(found[at]) > 0);
        assert(sorted.contains(found[at]));
        let i = choose|i: int| 0 <= i < sorted.len() && sorted[i] == found[at];
        if i > 0 {
            assert(rank(sorted[0].distance) <= rank(sorted[i].distance));
        }
    }
}

/// A query whose nearest neighbour is strictly nearer than every other
/// names that neighbour's segment first: the first result carries its
/// distance and the path and timestamp that the catalog holds for its
/// row.
pub proof fn lemma_nearest_segment_is_first_result(
    results: Seq<SearchResult>,
    found: Seq<Neighbor>,
    rows: Seq<SearchRow>,
    at: int,
)
    requires
        0 <= at < found.len(),
        forall|j: int|
            0 <= j < found.len() && j != at ==> rank(found[at].distance) < rank(
                (#[trigger] found[j]).distance,
            ),
        results_of(results, sorted_by_distance(found), rows),
    ensures
        results.len() >= 1,
        results[0].distance == found[at].distance,
        results[0].file_path@ == rows[position_of(rows, found[at].rowid)].file_path@,
        results[0].starting_timestamp == rows[position_of(
            rows,
            found[at].rowid,
        )].starting_timestamp,
{
    lemma_strictly_nearest_is_first(found, at);
}

/// The results of a query come nearest first, as many as the index found
/// neighbours.
pub proof fn lemma_results_nearest_first(
    results: Seq<SearchResult>,
    found: Seq<Neighbor>,
    rows: Seq<SearchRow>,
)
    requires
        results_of(results, sorted_by_distance(found), rows),
    ensures
        results.len() == found.len(),
        forall|i: int, j: int|
            0 <= i < j < results.len() ==> rank((#[trigger] results[i]).distance) <= rank(
                (#[trigger] results[j]).distance,
            ),
{
    lemma_sorted_by_distance(found);
    let neighbors = sorted_by_distance(found);
    assert forall|i: int, j: int| 0 <= i < j < results.len() implies rank(
        (#[trigger] results[i]).distance,
    ) <= rank((#[trigger] results[j]).distance) by {
        assert(rank(neighbors[i].distance) <= rank(neighbors[j].distance));
    }
}

} // verus!
