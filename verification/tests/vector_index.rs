use sonicsearch::codec::{encode_embedding, MalformedEmbedding};
use sonicsearch::vector_index::{
    initialize_index, layer_count, synchronize_index, IndexRow, DEFAULT_NB_ELEM,
    DEFAULT_NB_LAYER, EF_ARG, EF_C, K_LIMIT, MAX_NB_CONNECTION,
};

fn embedding(seed: u32) -> Vec<u32> {
    let mut state = seed.wrapping_mul(2654435761).wrapping_add(12345);
    (0..512)
        .map(|_| {
            state = state.wrapping_mul(1664525).wrapping_add(1013904223);
            ((state >> 8) as f32 / 16_777_216.0).to_bits()
        })
        .collect()
}

fn row(rowid: usize) -> IndexRow {
    IndexRow { rowid, embedding: encode_embedding(&embedding(rowid as u32)) }
}

#[test]
fn index_constants() {
    assert_eq!(DEFAULT_NB_ELEM, 5000);
    assert_eq!(MAX_NB_CONNECTION, 16);
    assert_eq!(EF_C, 200);
    assert_eq!(K_LIMIT, 10);
    assert_eq!(EF_ARG, 12);
    assert_eq!(DEFAULT_NB_LAYER, 8);
    assert!(K_LIMIT < EF_ARG && EF_ARG < MAX_NB_CONNECTION);
}

#[test]
fn layers_are_the_logarithm_of_the_capacity_rounded_down() {
    for n in [0usize, 1, 2, 3, 7, 8, 20, 21, 54, 55, 148, 149, 403, 404, 1096, 1097, 2980] {
        let expected = if n == 0 { 0 } else { (n as f64).ln().floor() as usize };
        assert_eq!(layer_count(n), expected);
    }
}

#[test]
fn layers_are_eight_at_most() {
    for n in [2981usize, 5000, 8103, 8104, 1_000_000, usize::MAX] {
        assert_eq!(layer_count(n), 8);
    }
}

#[test]
fn the_default_index_is_made_for_five_thousand_elements() {
    let index = initialize_index(None);
    assert_eq!(index.nb_elem(), 5000);
    assert_eq!(index.nb_layer(), 8);
    assert!(index.indexed_ids().is_empty());
}

#[test]
fn an_index_made_for_a_given_capacity() {
    let index = initialize_index(Some(100));
    assert_eq!(index.nb_elem(), 100);
    assert_eq!(index.nb_layer(), 4);
    let index = initialize_index(Some(0));
    assert_eq!((index.nb_elem(), index.nb_layer()), (0, 0));
}

#[test]
fn an_empty_catalog_gives_an_empty_index() {
    let mut index = initialize_index(None);
    let added = synchronize_index(&mut index, &Vec::new()).ok().expect("no blob to reject");
    assert!(added.is_empty());
    assert!(index.indexed_ids().is_empty());
}

#[test]
fn a_hundred_rows_are_indexed_once() {
    let rows: Vec<IndexRow> = (1..=100).map(row).collect();
    let mut index = initialize_index(None);
    let added = synchronize_index(&mut index, &rows).ok().expect("all blobs are well formed");
    assert_eq!(added.len(), 100);
    assert_eq!(index.indexed_ids().len(), 100);
    let again = synchronize_index(&mut index, &rows).ok().expect("all blobs are well formed");
    assert_eq!(again.len(), 0);
    assert_eq!(index.indexed_ids().len(), 100);
}

#[test]
fn entries_carry_the_decoded_embedding_under_the_row_id() {
    let rows = vec![row(7), row(3)];
    let mut index = initialize_index(None);
    let added = synchronize_index(&mut index, &rows).ok().expect("well formed");
    assert_eq!(added.len(), 2);
    assert_eq!((added[0].rowid, added[1].rowid), (7, 3));
    assert_eq!(added[0].embedding, embedding(7));
    assert_eq!(added[1].embedding, embedding(3));
    assert_eq!(index.indexed_ids(), &vec![7, 3]);
    assert!(index.contains(7));
    assert!(index.contains(3));
    assert!(!index.contains(4));
}

#[test]
fn only_rows_that_are_not_held_are_added() {
    let mut index = initialize_index(None);
    synchronize_index(&mut index, &vec![row(1), row(2)]).ok().expect("well formed");
    let added = synchronize_index(&mut index, &vec![row(1), row(5), row(2), row(9)])
        .ok()
        .expect("well formed");
    let ids: Vec<usize> = added.iter().map(|entry| entry.rowid).collect();
    assert_eq!(ids, vec![5, 9]);
    assert_eq!(index.indexed_ids(), &vec![1, 2, 5, 9]);
}

#[test]
fn a_corrupt_blob_fails_the_pass_and_changes_nothing() {
    let mut index = initialize_index(None);
    synchronize_index(&mut index, &vec![row(1)]).ok().expect("well formed");
    let corrupt = IndexRow { rowid: 2, embedding: vec![0; 2047] };
    let result = synchronize_index(&mut index, &vec![row(3), corrupt, row(4)]);
    assert_eq!(result.err(), Some(MalformedEmbedding { len: 2047 }));
    assert_eq!(index.indexed_ids(), &vec![1]);
}

#[test]
fn a_corrupt_blob_of_a_held_row_fails_the_pass_too() {
    let mut index = initialize_index(None);
    synchronize_index(&mut index, &vec![row(1)]).ok().expect("well formed");
    let corrupt = IndexRow { rowid: 1, embedding: vec![0; 3] };
    let result = synchronize_index(&mut index, &vec![corrupt]);
    assert_eq!(result.err(), Some(MalformedEmbedding { len: 3 }));
}

#[test]
fn the_first_corrupt_blob_is_reported() {
    let mut index = initialize_index(None);
    let rows = vec![
        IndexRow { rowid: 1, embedding: vec![0; 5] },
        IndexRow { rowid: 2, embedding: vec![0; 6] },
    ];
    assert_eq!(synchronize_index(&mut index, &rows).err(), Some(MalformedEmbedding { len: 5 }));
}
