use fraud_score::nearest::{count_nearest_fraud, nearest_rows};

fn sorted(mut v: Vec<usize>) -> Vec<usize> {
    v.sort();
    v
}

#[test]
fn nearest_rows_picks_smallest_keys() {
    let keys = [9u32, 3, 7, 1, 8];
    assert_eq!(sorted(nearest_rows(&keys, 2)), vec![1, 3]);
    assert_eq!(sorted(nearest_rows(&keys, 3)), vec![1, 2, 3]);
}

#[test]
fn nearest_rows_with_k_beyond_rows_takes_all() {
    let keys = [4u32, 4, 2];
    assert_eq!(sorted(nearest_rows(&keys, 10)), vec![0, 1, 2]);
}

#[test]
fn nearest_rows_with_k_zero_is_empty() {
    assert!(nearest_rows(&[1u32, 2], 0).is_empty());
    assert!(nearest_rows(&[], 3).is_empty());
}

#[test]
fn nearest_rows_breaks_ties_by_row() {
    let keys = [5u32, 5, 5, 5];
    assert_eq!(sorted(nearest_rows(&keys, 2)), vec![0, 1]);
    let keys = [6u32, 5, 6, 5, 4];
    assert_eq!(sorted(nearest_rows(&keys, 3)), vec![1, 3, 4]);
    assert_eq!(sorted(nearest_rows(&keys, 4)), vec![0, 1, 3, 4]);
}

#[test]
fn count_nearest_fraud_counts_nonzero_labels() {
    let keys = [9u32, 3, 7, 1, 8];
    let labels = [1u8, 1, 0, 2, 1];
    assert_eq!(count_nearest_fraud(&keys, &labels, 2), 2);
    assert_eq!(count_nearest_fraud(&keys, &labels, 3), 2);
    assert_eq!(count_nearest_fraud(&keys, &labels, 5), 4);
    assert_eq!(count_nearest_fraud(&keys, &[0, 0, 0, 0, 0], 5), 0);
}

#[test]
fn hits_grow_by_at_most_one_per_neighbour() {
    let keys = [9u32, 3, 7, 1, 8, 3, 0];
    let labels = [1u8, 1, 0, 2, 1, 1, 0];
    let mut previous = count_nearest_fraud(&keys, &labels, 0);
    for k in 1..=8 {
        let hits = count_nearest_fraud(&keys, &labels, k);
        assert!(previous <= hits && hits <= previous + 1);
        previous = hits;
    }
}

#[test]
fn count_ignores_row_order() {
    let keys = [9u32, 3, 7, 1, 8];
    let labels = [1u8, 1, 0, 2, 0];
    let order = [3usize, 0, 4, 1, 2];
    let keys2: Vec<u32> = order.iter().map(|&i| keys[i]).collect();
    let labels2: Vec<u8> = order.iter().map(|&i| labels[i]).collect();
    for k in 0..=6 {
        assert_eq!(
            count_nearest_fraud(&keys, &labels, k),
            count_nearest_fraud(&keys2, &labels2, k)
        );
    }
}
