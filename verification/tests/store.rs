use fraud_score::binary::{encode_store, BINARY_MAGIC, ROW_BYTES};
use fraud_score::error::VectorStoreError;
use fraud_score::handlers::load_file;
use fraud_score::label::Label;
use fraud_score::store::VectorStore;

fn vector(values: [f32; 14]) -> Vec<u8> {
    values.iter().flat_map(|v| v.to_le_bytes()).collect()
}

fn store_of(rows: &[([f32; 14], Label)]) -> VectorStore {
    let mut vectors = Vec::new();
    let mut labels = Vec::new();
    for (values, label) in rows {
        vectors.extend(vector(*values));
        labels.push(label.to_byte());
    }
    VectorStore::from_mmap(encode_store(&vectors, &labels)).unwrap()
}

#[test]
fn written_store_reads_back() {
    let a = [0.5f32; 14];
    let b = [0.25f32; 14];
    let store = store_of(&[(a, Label::Fraud), (b, Label::Legit)]);
    assert_eq!(store.rows(), 2);
    assert_eq!(store.dim(), 14);
    assert!(!store.is_empty());
    assert_eq!(store.vector_bytes(0), vector(a).as_slice());
    assert_eq!(store.vector_bytes(1), vector(b).as_slice());
    assert_eq!(store.labels(), &[1, 0]);
    assert_eq!(store.label(0), Label::Fraud);
    assert_eq!(store.label(1), Label::Legit);
    assert_eq!(store.vectors().len(), 2 * ROW_BYTES);
}

#[test]
fn empty_store_is_empty() {
    let store = store_of(&[]);
    assert!(store.is_empty());
    assert_eq!(store.rows(), 0);
}

#[test]
fn from_mmap_rejects_bad_magic() {
    let mut file = encode_store(&[], &[]);
    file[0] = 0;
    match VectorStore::from_mmap(file) {
        Err(VectorStoreError::InvalidBinary(reason)) => {
            assert_eq!(reason, format!("unexpected magic value {}", BINARY_MAGIC & !0xff))
        }
        _ => panic!("expected a magic error"),
    }
}

#[test]
fn load_file_accepts_only_well_formed_files() {
    assert!(load_file(encode_store(&[], &[])).is_ok());
    assert!(matches!(load_file(vec![1, 2, 3]), Err(VectorStoreError::InvalidBinary(_))));
}

#[test]
fn query_errors_come_in_order() {
    let empty = store_of(&[]);
    assert!(matches!(empty.query_fraud_hits(3, &[], 0), Err(VectorStoreError::InvalidK)));
    assert!(matches!(empty.query_fraud_hits(3, &[], 5), Err(VectorStoreError::EmptyDataset)));
    let store = store_of(&[([0.0; 14], Label::Fraud)]);
    match store.query_fraud_hits(3, &[0], 5) {
        Err(VectorStoreError::InvalidVectorLength { expected, got }) => {
            assert_eq!(expected, 14);
            assert_eq!(got, 3);
        }
        _ => panic!("expected a length error"),
    }
    assert_eq!(store.query_fraud_hits(14, &[0], 5).unwrap(), 1);
}

#[test]
fn query_counts_fraud_among_nearest() {
    let z = [0.0f32; 14];
    let store = store_of(&[
        (z, Label::Fraud),
        (z, Label::Legit),
        (z, Label::Fraud),
        (z, Label::Fraud),
        (z, Label::Legit),
        (z, Label::Fraud),
        (z, Label::Legit),
    ]);
    // Keys: rows 1, 4, 6 (legit) nearest, then row 0.
    let keys = [40u32, 1, 90, 80, 2, 70, 3];
    assert_eq!(store.query_fraud_hits(14, &keys, 3).unwrap(), 0);
    assert_eq!(store.query_fraud_hits(14, &keys, 4).unwrap(), 1);
    assert_eq!(store.query_fraud_hits(14, &keys, 5).unwrap(), 2);
    assert_eq!(store.query_fraud_hits(14, &keys, 100).unwrap(), 4);
}

#[test]
fn query_ties_go_to_earlier_rows() {
    let z = [0.0f32; 14];
    let store = store_of(&[(z, Label::Legit), (z, Label::Fraud), (z, Label::Fraud)]);
    assert_eq!(store.query_fraud_hits(14, &[5, 5, 5], 1).unwrap(), 0);
    assert_eq!(store.query_fraud_hits(14, &[5, 5, 5], 2).unwrap(), 1);
    // A later row with an equal key does not displace an earlier one.
    assert_eq!(store.query_fraud_hits(14, &[5, 5, 1], 2).unwrap(), 1);
}

#[test]
fn stored_contents_rewrite_to_the_same_file() {
    let mut vectors = vec![0u8; 2 * ROW_BYTES];
    vectors[3] = 0x3f;
    vectors[ROW_BYTES + 7] = 0x40;
    let file = encode_store(&vectors, &[0, 5]);
    let store = VectorStore::from_mmap(file.clone()).unwrap();
    assert_eq!(encode_store(store.vectors(), store.labels()), file);
}
