//! Bookkeeping of the approximate nearest-neighbour index.
//!
//! The graph itself lives with the caller; here is what decides its
//! shape, which catalog rows still have to be inserted into it, and the
//! record of the rows that it holds. An entry of the index is an
//! embedding under the id of its catalog row.

use crate::codec::{decode_embedding, decoded, well_formed_blob, MalformedEmbedding};
use vstd::endian::endianness;
use vstd::prelude::*;

verus! {

/// Capacity that the index is made for when none is given.
pub const DEFAULT_NB_ELEM: usize = 5000;

/// Greatest number of links of a point of the graph.
pub const MAX_NB_CONNECTION: usize = 16;

/// Width of the search while the graph is built.
pub const EF_C: usize = 200;

/// Number of neighbours that a query asks for.
pub const K_LIMIT: usize = 10;

/// Width of the search in the lowest layer. It lies above `K_LIMIT` and
/// below `MAX_NB_CONNECTION`.
pub const EF_ARG: usize = 12;

/// Greatest number of layers of the graph.
pub const DEFAULT_NB_LAYER: usize = 8;

/// The search in the lowest layer is wider than the number of neighbours
/// asked for and narrower than the greatest number of links.
pub proof fn lemma_search_width_in_range()
    ensures
        K_LIMIT < EF_ARG < MAX_NB_CONNECTION,
{
}

/// The natural logarithm of `n`, rounded down, as far as it is told apart
/// here: any value of eight or more counts as eight. The bounds are the
/// powers of `e` rounded up to whole numbers; nothing below three has a
/// logarithm of one or more.
pub open spec fn floor_ln_up_to_8(n: int) -> int {
    if n < 3 {
        0
    } else if n < 8 {
        1
    } else if n < 21 {
        2
    } else if n < 55 {
        3
    } else if n < 149 {
        4
    } else if n < 404 {
        5
    } else if n < 1097 {
        6
    } else if n < 2981 {
        7
    } else {
        8
    }
}

/// Number of layers of an index made for `nb_elem` elements: the natural
/// logarithm of the capacity rounded down, and eight at most.
pub fn layer_count(nb_elem: usize) -> (nb_layer: usize)
    ensures
        nb_layer == floor_ln_up_to_8(nb_elem as int),
        nb_layer <= DEFAULT_NB_LAYER,
{
    if nb_elem < 3 {
        0
    } else if nb_elem < 8 {
        1
    } else if nb_elem < 21 {
        2
    } else if nb_elem < 55 {
        3
    } else if nb_elem < 149 {
        4
    } else if nb_elem < 404 {
        5
    } else if nb_elem < 1097 {
        6
    } else if nb_elem < 2981 {
        7
    } else {
        8
    }
}

/// The record of an index: how it is shaped and which rows it holds.
pub struct VectorIndex {
    nb_elem: usize,
    nb_layer: usize,
    indexed_ids: Vec<usize>,
}

/// A row of the catalog that carries an embedding.
pub struct IndexRow {
    pub rowid: usize,
    pub embedding: Vec<u8>,
}

/// An embedding to insert into the graph under the id of its row.
pub struct IndexEntry {
    pub embedding: Vec<u32>,
    pub rowid: usize,
}

/// The test for a row whose id is not among `known`.
pub open spec fn not_among(known: Seq<usize>) -> spec_fn(IndexRow) -> bool {
    |row: IndexRow| !known.contains(row.rowid)
}

/// The rows of `rows` whose id is not among `known`, in their order.
pub open spec fn fresh_rows(rows: Seq<IndexRow>, known: Seq<usize>) -> Seq<IndexRow> {
    rows.filter(not_among(known))
}

/// The ids of `rows`, in their order.
pub open spec fn rowids(rows: Seq<IndexRow>) -> Seq<usize> {
    rows.map_values(|row: IndexRow| row.rowid)
}

/// Every blob of `rows` can be cut into whole coordinates.
pub open spec fn all_well_formed(rows: Seq<IndexRow>) -> bool {
    forall|i: int| 0 <= i < rows.len() ==> well_formed_blob((#[trigger] rows[i]).embedding@)
}

/// `entries` are the rows `rows` with their blobs decoded.
pub open spec fn entries_of(entries: Seq<IndexEntry>, rows: Seq<IndexRow>) -> bool {
    &&& entries.len() == rows.len()
    &&& forall|i: int|
        0 <= i < entries.len() ==> (#[trigger] entries[i]).rowid == rows[i].rowid
            && entries[i].embedding@ == decoded(endianness(), rows[i].embedding@)
}

impl VectorIndex {
    /// The ids of the rows that the index holds, in order of insertion.
    pub closed spec fn ids(&self) -> Seq<usize> {
        self.indexed_ids@
    }

    /// The capacity that the index was made for.
    pub closed spec fn capacity(&self) -> int {
        self.nb_elem as int
    }

    /// The number of layers of the graph.
    pub closed spec fn layers(&self) -> int {
        self.nb_layer as int
    }

    /// The capacity that the index was made for.
    pub fn nb_elem(&self) -> (n: usize)
        ensures
            n == self.capacity(),
    {
        self.nb_elem
    }

    /// The number of layers of the graph.
    pub fn nb_layer(&self) -> (n: usize)
        ensures
            n == self.layers(),
    {
        self.nb_layer
    }

    /// The ids of the rows that the index holds.
    pub fn indexed_ids(&self) -> (ids: &Vec<usize>)
        ensures
            ids@ == self.ids(),
    {
        &self.indexed_ids
    }

    /// Whether the index holds the row `rowid`.
    pub fn contains(&self, rowid: usize) -> (held: bool)
        ensures
            held == self.ids().contains(rowid),
    {
        let n: usize = self.indexed_ids.len();
        let mut i: usize = 0;
        while i < n
            invariant
                n == self.indexed_ids@.len(),
                i <= n,
                forall|k: int| 0 <= k < i ==> self.indexed_ids@[k] != rowid,
            decreases n - i,
        {
            if self.indexed_ids[i] == rowid {
                return true;
            }
            i = i + 1;
        }
        false
    }
}

/// An empty index made for `nb_elem` elements, or for
/// `DEFAULT_NB_ELEM` where no capacity is given.
pub fn initialize_index(nb_elem: Option<usize>) -> (index: VectorIndex)
    ensures
        index.ids() == Seq::<usize>::empty(),
        index.capacity() == match nb_elem {
            Some(n) => n as int,
            None => DEFAULT_NB_ELEM as int,
        },
        index.layers() == floor_ln_up_to_8(index.capacity()),
{
    let nb_elem: usize = match nb_elem {
        Some(n) => n,
        None => DEFAULT_NB_ELEM,
    };
    VectorIndex { nb_elem, nb_layer: layer_count(nb_elem), indexed_ids: Vec::new() }
}

/// Brings the record of the index up to the catalog. `rows` are all rows
/// of the catalog that carry an embedding. Every blob is decoded; the rows
/// that the index does not hold yet come back, in their order, as the
/// entries to insert, and are recorded as held. One blob that cannot be
/// decoded fails the whole pass and leaves the record as it was; the
/// error is that of the first such row.
pub fn synchronize_index(vector_index: &mut VectorIndex, rows: &Vec<IndexRow>) -> (added: Result<
    Vec<IndexEntry>,
    MalformedEmbedding,
>)
    ensures
        final(vector_index).capacity() == old(vector_index).capacity(),
        final(vector_index).layers() == old(vector_index).layers(),
        added is Ok <==> all_well_formed(rows@),
        added matches Ok(entries) ==> {
            &&& entries_of(entries@, fresh_rows(rows@, old(vector_index).ids()))
            &&& final(vector_index).ids() == old(vector_index).ids() + rowids(
                fresh_rows(rows@, old(vector_index).ids()),
            )
        },
        added matches Err(error) ==> {
            &&& final(vector_index).ids() == old(vector_index).ids()
            &&& exists|i: int|
                0 <= i < rows@.len() && !well_formed_blob((#[trigger] rows@[i]).embedding@)
                    && error.len == rows@[i].embedding@.len() && all_well_formed(rows@.take(i))
        },
{
    let n: usize = rows.len();
    let ghost known = vector_index.indexed_ids@;
    let ghost is_fresh = not_among(known);
    let mut entries: Vec<IndexEntry> = Vec::new();
    let mut i: usize = 0;
    proof {
        assert(rows@.take(0) =~= Seq::<IndexRow>::empty());
        assert(rows@.take(0).filter(is_fresh) =~= Seq::<IndexRow>::empty());
    }
    while i < n
        invariant
            n == rows@.len(),
            i <= n,
            known == old(vector_index).indexed_ids@,
            vector_index.indexed_ids@ == known,
            vector_index.nb_elem == old(vector_index).nb_elem,
            vector_index.nb_layer == old(vector_index).nb_layer,
            is_fresh == not_among(known),
            all_well_formed(rows@.take(i as int)),
            entries_of(entries@, rows@.take(i as int).filter(is_fresh)),
        decreases n - i,
    {
        let row = &rows[i];
        let ghost seen = rows@.take(i as int);
        proof {
            assert(rows@.take(i + 1) =~= seen.push(*row));
            seen.lemma_filter_push(*row, is_fresh);
        }
        match decode_embedding(row.embedding.as_slice()) {
            Ok(embedding) => {
                if !vector_index.contains(row.rowid) {
                    entries.push(IndexEntry { embedding, rowid: row.rowid });
                }
                proof {
                    assert forall|k: int| 0 <= k < i + 1 implies well_formed_blob(
                        (#[trigger] rows@.take(i + 1)[k]).embedding@,
                    ) by {
                        if k < i {
                            assert(rows@.take(i + 1)[k] == seen[k]);
                        }
                    }
                }
            },
            Err(error) => {
                return Err(error);
            },
        }
        i = i + 1;
    }
    proof {
        assert(rows@.take(n as int) =~= rows@);
    }
    let count: usize = entries.len();
    let mut k: usize = 0;
    let ghost fresh = rows@.filter(is_fresh);
    proof {
        assert(rowids(fresh).take(0) =~= Seq::<usize>::empty());
    }
    while k < count
        invariant
            count == entries@.len(),
            k <= count,
            entries_of(entries@, fresh),
            vector_index.nb_elem == old(vector_index).nb_elem,
            vector_index.nb_layer == old(vector_index).nb_layer,
            vector_index.indexed_ids@ == known + rowids(fresh).take(k as int),
        decreases count - k,
    {
        vector_index.indexed_ids.push(entries[k].rowid);
        proof {
            assert(rowids(fresh)[k as int] == fresh[k as int].rowid);
            assert(rowids(fresh).take(k + 1) =~= rowids(fresh).take(k as int).push(
                entries@[k as int].rowid,
            ));
            assert(vector_index.indexed_ids@ =~= known + rowids(fresh).take(k + 1));
        }
        k = k + 1;
    }
    proof {
        assert(rowids(fresh).take(count as int) =~= rowids(fresh));
    }
    Ok(entries)
}

/// A fresh row is a row of the catalog that the index did not hold, and
/// every such row is fresh.
pub proof fn lemma_fresh_rows_are_the_new_ones(rows: Seq<IndexRow>, known: Seq<usize>)
    ensures
        forall|i: int|
            0 <= i < fresh_rows(rows, known).len() ==> rows.contains(
                #[trigger] fresh_rows(rows, known)[i],
            ) && !known.contains(fresh_rows(rows, known)[i].rowid),
        forall|i: int|
            0 <= i < rows.len() && !known.contains((#[trigger] rows[i]).rowid) ==> fresh_rows(
                rows,
                known,
            ).contains(rows[i]),
        fresh_rows(rows, known).len() <= rows.len(),
{
    broadcast use vstd::seq_lib::group_filter_ensures;

    let is_fresh = not_among(known);
    let fresh = fresh_rows(rows, known);
    assert forall|i: int| 0 <= i < fresh.len() implies rows.contains(#[trigger] fresh[i])
        && !known.contains(fresh[i].rowid) by {
        assert(is_fresh(fresh[i]));
        assert(fresh.contains(fresh[i]));
        rows.lemma_filter_contains_rev(is_fresh, fresh[i]);
    }
    assert forall|i: int|
        0 <= i < rows.len() && !known.contains((#[trigger] rows[i]).rowid) implies fresh.contains(
        rows[i],
    ) by {
        assert(is_fresh(rows[i]));
    }
}

/// After a pass the index holds every row of the catalog, and nothing
/// that it did not hold before or that is no row of the catalog.
pub proof fn lemma_index_reflects_catalog(rows: Seq<IndexRow>, known: Seq<usize>)
    ensures
        forall|i: int|
            0 <= i < rows.len() ==> (known + rowids(fresh_rows(rows, known))).contains(
                (#[trigger] rows[i]).rowid,
            ),
        forall|id: usize|
            (known + rowids(fresh_rows(rows, known))).contains(id) ==> known.contains(id)
                || exists|i: int| 0 <= i < rows.len() && (#[trigger] rows[i]).rowid == id,
{
    let fresh = fresh_rows(rows, known);
    let after = known + rowids(fresh);
    lemma_fresh_rows_are_the_new_ones(rows, known);
    assert forall|i: int| 0 <= i < rows.len() implies after.contains(
        (#[trigger] rows[i]).rowid,
    ) by {
        let id = rows[i].rowid;
        if known.contains(id) {
            let k = choose|k: int| 0 <= k < known.len() && known[k] == id;
            assert(after[k] == id);
        } else {
            assert(fresh.contains(rows[i]));
            let k = choose|k: int| 0 <= k < fresh.len() && fresh[k] == rows[i];
            assert(rowids(fresh)[k] == id);
            assert(after[known.len() + k] == id);
        }
    }
    assert forall|id: usize| after.contains(id) implies known.contains(id) || exists|i: int|
        0 <= i < rows.len() && (#[trigger] rows[i]).rowid == id by {
        let k = choose|k: int| 0 <= k < after.len() && after[k] == id;
        if k < known.len() {
            assert(known[k] == id);
        } else {
            let row = fresh[k - known.len()];
            assert(rowids(fresh)[k - known.len()] == row.rowid);
            assert(rows.contains(row));
            let i = choose|i: int| 0 <= i < rows.len() && rows[i] == row;
            assert(rows[i].rowid == id);
        }
    }
}

/// A second pass over an unchanged catalog adds nothing: no row is fresh
/// any more, so the record stays as the first pass left it.
pub proof fn lemma_second_pass_adds_nothing(rows: Seq<IndexRow>, known: Seq<usize>)
    ensures
        fresh_rows(rows, known + rowids(fresh_rows(rows, known))) == Seq::<IndexRow>::empty(),
        rowids(fresh_rows(rows, known + rowids(fresh_rows(rows, known)))) == Seq::<usize>::empty(),
{
    let after = known + rowids(fresh_rows(rows, known));
    lemma_index_reflects_catalog(rows, known);
    lemma_fresh_rows_are_the_new_ones(rows, after);
    let again = fresh_rows(rows, after);
    if again.len() > 0 {
        let row = again[0];
        assert(rows.contains(row));
        let i = choose|i: int| 0 <= i < rows.len() && rows[i] == row;
        assert(after.contains(rows[i].rowid));
    }
    assert(again =~= Seq::<IndexRow>::empty());
    assert(rowids(again) =~= Seq::<usize>::empty());
}

/// Into an empty index every row of the catalog is inserted: after the
/// first pass the index holds as many ids as the catalog has rows.
pub proof fn lemma_first_pass_takes_all(rows: Seq<IndexRow>)
    ensures
        fresh_rows(rows, Seq::<usize>::empty()) == rows,
        rowids(fresh_rows(rows, Seq::<usize>::empty())).len() == rows.len(),
    decreases rows.len(),
{
    let none = Seq::<usize>::empty();
    let is_fresh = not_among(none);
    if rows.len() == 0 {
        reveal(Seq::filter);
        assert(rows.filter(is_fresh) =~= rows);
    } else {
        let head = rows.drop_last();
        lemma_first_pass_takes_all(head);
        head.lemma_filter_push(rows.last(), is_fresh);
        assert(head.push(rows.last()) =~= rows);
        assert(is_fresh(rows.last()));
    }
}

} // verus!
