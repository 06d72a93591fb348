use sonicsearch::codec::{
    decode_embedding, encode_embedding, MalformedEmbedding, COORD_BYTES, EMBEDDING_DIM,
};

fn bits(values: &[f32]) -> Vec<u32> {
    values.iter().map(|v| v.to_bits()).collect()
}

fn native_bytes(values: &[f32]) -> Vec<u8> {
    values.iter().flat_map(|v| v.to_ne_bytes()).collect()
}

#[test]
fn codec_constants() {
    assert_eq!(EMBEDDING_DIM, 512);
    assert_eq!(COORD_BYTES, 4);
}

#[test]
fn encode_writes_native_bytes_of_each_float() {
    let values = [1.0f32, -2.5, 0.0, 3.4028235e38, 1.0e-40];
    assert_eq!(encode_embedding(&bits(&values)), native_bytes(&values));
}

#[test]
fn encode_of_one_is_its_memory_layout() {
    let blob = encode_embedding(&[1.0f32.to_bits()]);
    assert_eq!(blob, 0x3f80_0000u32.to_ne_bytes().to_vec());
    assert_eq!(blob.len(), 4);
}

#[test]
fn encode_length_is_four_times_the_dimension() {
    for n in [0usize, 1, 2, 7, 512] {
        let embedding: Vec<u32> = (0..n as u32).collect();
        assert_eq!(encode_embedding(&embedding).len(), 4 * n);
    }
}

#[test]
fn decode_reads_native_bytes() {
    let values = [0.25f32, -1.0, 1234.5];
    let decoded = decode_embedding(&native_bytes(&values)).expect("blob is well formed");
    let floats: Vec<f32> = decoded.iter().map(|b| f32::from_bits(*b)).collect();
    assert_eq!(floats, values.to_vec());
}

#[test]
fn round_trip_is_exact_for_every_bit_pattern_tried() {
    let patterns: Vec<u32> = vec![
        0,
        0x8000_0000,
        1,
        0x7f80_0000,
        0xff80_0000,
        0x7fc0_0000,
        0x7f80_0001,
        0xffff_ffff,
        0x0102_0304,
        0x3f80_0000,
    ];
    let blob = encode_embedding(&patterns);
    assert_eq!(decode_embedding(&blob), Ok(patterns));
}

#[test]
fn round_trip_of_a_full_embedding() {
    let embedding: Vec<u32> =
        (0..EMBEDDING_DIM).map(|i| ((i as f32) * 0.001 - 0.25).to_bits()).collect();
    let blob = encode_embedding(&embedding);
    assert_eq!(blob.len(), 2048);
    assert_eq!(decode_embedding(&blob), Ok(embedding));
}

#[test]
fn decode_of_an_empty_blob_is_an_empty_embedding() {
    assert_eq!(decode_embedding(&[]), Ok(vec![]));
}

#[test]
fn decode_rejects_a_length_that_is_no_multiple_of_four() {
    assert_eq!(decode_embedding(&[1, 2, 3, 4, 5]), Err(MalformedEmbedding { len: 5 }));
    assert_eq!(decode_embedding(&[9]), Err(MalformedEmbedding { len: 1 }));
    assert_eq!(decode_embedding(&[0; 2047]), Err(MalformedEmbedding { len: 2047 }));
}

#[test]
fn decode_accepts_every_multiple_of_four() {
    for n in [4usize, 8, 12, 2048] {
        let blob = vec![0xabu8; n];
        let decoded = decode_embedding(&blob).expect("multiple of four");
        assert_eq!(decoded.len(), n / 4);
        assert_eq!(decoded[0], 0xabab_abab);
    }
}
