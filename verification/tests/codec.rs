use embeddings::codec::{decode, encode, CorruptVector};

fn bits(values: &[f32]) -> Vec<u32> {
    values.iter().map(|x| x.to_bits()).collect()
}

#[test]
fn encode_writes_count_then_words_least_significant_byte_first() {
    let blob = encode(&bits(&[1.0, -2.5]));
    assert_eq!(
        blob,
        vec![2, 0, 0, 0, 0, 0, 0, 0, 0x00, 0x00, 0x80, 0x3f, 0x00, 0x00, 0x20, 0xc0]
    );
}

#[test]
fn encode_of_empty_vector_is_the_bare_header() {
    assert_eq!(encode(&Vec::new()), vec![0u8; 8]);
}

#[test]
fn decode_returns_what_encode_was_given() {
    let vector = bits(&[0.25, -1.0e-20, 3.0e30, 0.0, -0.0, 1.0]);
    let blob = encode(&vector);
    assert_eq!(decode(&blob, vector.len()), Ok(vector));
}

#[test]
fn round_trip_keeps_every_bit_pattern() {
    let vector: Vec<u32> = vec![
        0,
        0x8000_0000,
        1,
        0x007f_ffff,
        0x7f7f_ffff,
        0xff7f_ffff,
        f32::INFINITY.to_bits(),
        f32::NAN.to_bits(),
        0xffff_ffff,
        0x1234_5678,
    ];
    let blob = encode(&vector);
    assert_eq!(blob.len(), 8 + 4 * vector.len());
    assert_eq!(decode(&blob, vector.len()), Ok(vector));
}

#[test]
fn round_trip_of_model_sized_vector() {
    let vector: Vec<u32> = (0..384u32).map(|i| ((i as f32) * 0.01 - 1.5).to_bits()).collect();
    let blob = encode(&vector);
    let back = decode(&blob, 384).unwrap();
    assert_eq!(back, vector);
    for (b, v) in back.iter().zip(vector.iter()) {
        assert_eq!(f32::from_bits(*b), f32::from_bits(*v));
    }
}

#[test]
fn decode_refuses_empty_blob() {
    assert_eq!(decode(&[], 0), Err(CorruptVector::Malformed));
    assert_eq!(decode(&[], 3), Err(CorruptVector::Malformed));
}

#[test]
fn decode_refuses_short_header() {
    assert_eq!(decode(&[0, 0, 0, 0], 0), Err(CorruptVector::Malformed));
    assert_eq!(decode(&[1, 0, 0, 0, 0, 0, 0], 1), Err(CorruptVector::Malformed));
}

#[test]
fn decode_refuses_truncated_blob() {
    let mut blob = encode(&bits(&[1.0, 2.0, 3.0]));
    blob.truncate(blob.len() - 4);
    assert_eq!(decode(&blob, 3), Err(CorruptVector::Malformed));
    assert_eq!(decode(&blob, 2), Err(CorruptVector::Malformed));
    blob.truncate(blob.len() - 1);
    assert_eq!(decode(&blob, 2), Err(CorruptVector::Malformed));
}

#[test]
fn decode_refuses_trailing_bytes() {
    let mut blob = encode(&bits(&[1.0]));
    blob.extend_from_slice(&[0, 0, 0, 0]);
    assert_eq!(decode(&blob, 1), Err(CorruptVector::Malformed));
    assert_eq!(decode(&blob, 2), Err(CorruptVector::Malformed));
}

#[test]
fn decode_refuses_count_with_high_half_set() {
    let blob = vec![1, 0, 0, 0, 1, 0, 0, 0, 0, 0, 0x80, 0x3f];
    assert_eq!(decode(&blob, 1), Err(CorruptVector::Malformed));
}

#[test]
fn decode_refuses_text_that_is_no_blob() {
    assert_eq!(decode(b"[1.0,0.0]", 2), Err(CorruptVector::Malformed));
    assert_eq!(decode(b"not a vector", 2), Err(CorruptVector::Malformed));
}

#[test]
fn decode_refuses_other_dimension() {
    let blob = encode(&bits(&[1.0, 2.0]));
    assert_eq!(decode(&blob, 3), Err(CorruptVector::WrongDimension));
    assert_eq!(decode(&blob, 0), Err(CorruptVector::WrongDimension));
    assert_eq!(decode(&[0u8; 8], 2), Err(CorruptVector::WrongDimension));
}

#[test]
fn decode_of_bare_header_is_the_empty_vector() {
    assert_eq!(decode(&[0u8; 8], 0), Ok(Vec::new()));
}

#[test]
fn encode_differs_from_its_argument() {
    let vector: Vec<u32> = vec![7, 8];
    let blob = encode(&vector);
    assert_eq!(blob.len(), 16);
    assert_eq!(&blob[8..12], &[7, 0, 0, 0]);
    assert_eq!(&blob[12..16], &[8, 0, 0, 0]);
}
