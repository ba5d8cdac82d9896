use fraud_score::binary::{
    check_layout, encode_store, f32_count, parse_u32_le, push_u32_le, BINARY_MAGIC,
    BINARY_VERSION, HEADER_SIZE, ROW_BYTES, VECTOR_DIM,
};
use fraud_score::error::VectorStoreError;

fn header(magic: u32, version: u32, dim: u32, rows: u32) -> Vec<u8> {
    let mut out = Vec::new();
    out.extend_from_slice(&magic.to_le_bytes());
    out.extend_from_slice(&version.to_le_bytes());
    out.extend_from_slice(&dim.to_le_bytes());
    out.extend_from_slice(&rows.to_le_bytes());
    out
}

fn invalid_binary_reason(e: VectorStoreError) -> String {
    match e {
        VectorStoreError::InvalidBinary(reason) => reason,
        other => panic!("expected an invalid-binary error, got {:?}", other),
    }
}

#[test]
fn parse_u32_le_reads_little_endian() {
    let bytes = [0x52u8, 0x43, 0x45, 0x56, 0x01];
    assert_eq!(parse_u32_le(&bytes, 0).unwrap(), 0x5645_4352);
    assert_eq!(parse_u32_le(&bytes, 1).unwrap(), 0x0156_4543);
}

#[test]
fn parse_u32_le_reports_truncated_header() {
    let bytes = [1u8, 2, 3];
    assert_eq!(invalid_binary_reason(parse_u32_le(&bytes, 0).unwrap_err()), "truncated header");
    let bytes = [1u8, 2, 3, 4];
    assert_eq!(invalid_binary_reason(parse_u32_le(&bytes, 1).unwrap_err()), "truncated header");
}

#[test]
fn push_u32_le_writes_little_endian() {
    let mut out = vec![9u8];
    push_u32_le(&mut out, 0x0102_0304);
    assert_eq!(out, vec![9, 4, 3, 2, 1]);
}

#[test]
fn f32_count_needs_whole_values() {
    assert_eq!(f32_count(56).unwrap(), 14);
    assert_eq!(f32_count(0).unwrap(), 0);
    assert_eq!(
        invalid_binary_reason(f32_count(7).unwrap_err()),
        "vectors section has invalid byte size"
    );
}

#[test]
fn layout_of_well_formed_file() {
    let mut file = header(BINARY_MAGIC, BINARY_VERSION, VECTOR_DIM as u32, 2);
    file.extend(vec![0u8; 2 * ROW_BYTES]);
    file.extend([1u8, 0]);
    assert_eq!(check_layout(&file).unwrap(), 2);
}

#[test]
fn layout_header_too_short() {
    let file = vec![0u8; HEADER_SIZE - 1];
    assert_eq!(invalid_binary_reason(check_layout(&file).unwrap_err()), "header too short");
}

#[test]
fn layout_unexpected_magic() {
    let file = header(7, BINARY_VERSION, VECTOR_DIM as u32, 0);
    assert_eq!(
        invalid_binary_reason(check_layout(&file).unwrap_err()),
        "unexpected magic value 7"
    );
}

#[test]
fn layout_unsupported_version() {
    let file = header(BINARY_MAGIC, 2, VECTOR_DIM as u32, 0);
    assert_eq!(invalid_binary_reason(check_layout(&file).unwrap_err()), "unsupported version 2");
}

#[test]
fn layout_wrong_dimension() {
    let file = header(BINARY_MAGIC, BINARY_VERSION, 3, 0);
    match check_layout(&file).unwrap_err() {
        VectorStoreError::InvalidVectorLength { expected, got } => {
            assert_eq!(expected, 14);
            assert_eq!(got, 3);
        }
        other => panic!("unexpected error {:?}", other),
    }
}

#[test]
fn layout_unexpected_size() {
    let mut file = header(BINARY_MAGIC, BINARY_VERSION, VECTOR_DIM as u32, 1);
    file.extend(vec![0u8; ROW_BYTES]);
    assert_eq!(
        invalid_binary_reason(check_layout(&file).unwrap_err()),
        "unexpected file size: got 72, expected 73"
    );
}

#[test]
fn encode_store_writes_header_vectors_and_labels() {
    let vectors: Vec<u8> = (0..ROW_BYTES as u8).collect();
    let file = encode_store(&vectors, &[1]);
    let mut expected = header(BINARY_MAGIC, BINARY_VERSION, 14, 1);
    expected.extend(&vectors);
    expected.push(1);
    assert_eq!(file, expected);
    assert_eq!(check_layout(&file).unwrap(), 1);
}
