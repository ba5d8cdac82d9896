use fraud_score::error::{
    invalid_binary, source_not_found, store_unavailable, unavailable_because, VectorStoreError,
};
use fraud_score::features::is_known_merchant;
use fraud_score::label::Label;
use fraud_score::text::with_decimal;

#[test]
fn messages_describe_each_error() {
    assert_eq!(
        VectorStoreError::InvalidVectorLength { expected: 14, got: 3 }.message(),
        "invalid vector length: expected 14, got 3"
    );
    assert_eq!(VectorStoreError::EmptyDataset.message(), "vector store is empty");
    assert_eq!(VectorStoreError::InvalidK.message(), "k must be greater than zero");
    assert_eq!(
        VectorStoreError::StoreUnavailable("gone".to_string()).message(),
        "store unavailable: gone"
    );
    assert_eq!(invalid_binary("bad").message(), "invalid binary vector source: bad");
    let io = std::io::Error::new(std::io::ErrorKind::NotFound, "missing");
    assert_eq!(VectorStoreError::from(io).message(), "io error: missing");
}

#[test]
fn unavailable_store_wraps_the_cause() {
    match store_unavailable(&VectorStoreError::EmptyDataset) {
        VectorStoreError::StoreUnavailable(reason) => assert_eq!(reason, "vector store is empty"),
        _ => panic!("expected an unavailable store"),
    }
    match source_not_found("/tmp/x.bin") {
        VectorStoreError::StoreUnavailable(reason) => {
            assert_eq!(reason, "vector source not found at /tmp/x.bin")
        }
        _ => panic!("expected an unavailable store"),
    }
}

#[test]
fn with_decimal_writes_digits() {
    assert_eq!(with_decimal("", 0), "0");
    assert_eq!(with_decimal("", 1_234_567), "1234567");
    assert_eq!(with_decimal("n=", 42), "n=42");
    assert_eq!(with_decimal("max ", u64::MAX), "max 18446744073709551615");
}

#[test]
fn label_bytes_round_trip() {
    assert_eq!(Label::Fraud.to_byte(), 1);
    assert_eq!(Label::Legit.to_byte(), 0);
    assert_eq!(Label::from_byte(1), Label::Fraud);
    assert_eq!(Label::from_byte(7), Label::Fraud);
    assert_eq!(Label::from_byte(0), Label::Legit);
    assert!(Label::Fraud.is_fraud());
    assert!(!Label::Legit.is_fraud());
}

#[test]
fn known_merchants_match_by_text() {
    let known = vec!["m-1".to_string(), "m-2".to_string()];
    assert!(is_known_merchant(&known, &"m-2".to_string()));
    assert!(!is_known_merchant(&known, &"m-3".to_string()));
    assert!(!is_known_merchant(&Vec::new(), &"m-1".to_string()));
}

#[test]
fn describe_places_the_io_text() {
    let io = VectorStoreError::from(std::io::Error::new(std::io::ErrorKind::Other, "x"));
    assert_eq!(io.describe("disk on fire"), "io error: disk on fire");
    assert_eq!(VectorStoreError::InvalidK.describe("ignored"), "k must be greater than zero");
    match unavailable_because(&io, "no such file") {
        VectorStoreError::StoreUnavailable(reason) => {
            assert_eq!(reason, "io error: no such file")
        }
        _ => panic!("expected an unavailable store"),
    }
    let missing = VectorStoreError::from(std::io::Error::new(std::io::ErrorKind::NotFound, "gone"));
    match store_unavailable(&missing) {
        VectorStoreError::StoreUnavailable(reason) => assert_eq!(reason, "io error: gone"),
        _ => panic!("expected an unavailable store"),
    }
}
