use ries_rs::dedupe::{pair_key, simplest_per_key};

#[test]
fn simplest_item_kept_per_key() {
    let keys: Vec<i128> = vec![5, 3, 5, 3, 7];
    let costs: Vec<u32> = vec![4, 2, 3, 2, 1];
    assert_eq!(simplest_per_key(&keys, &costs), vec![1, 2, 4]);
}

#[test]
fn simplest_per_key_edge_cases() {
    assert_eq!(simplest_per_key(&Vec::new(), &Vec::new()), Vec::<usize>::new());
    let keys: Vec<i128> = vec![9, 9, 9];
    assert_eq!(simplest_per_key(&keys, &vec![3, 1, 1]), vec![1]);
    assert_eq!(simplest_per_key(&keys, &vec![1, 1, 1]), vec![0]);
    let distinct: Vec<i128> = vec![1, 2, 3];
    assert_eq!(simplest_per_key(&distinct, &vec![7, 7, 7]), vec![0, 1, 2]);
}

#[test]
fn pair_keys_tell_pairs_apart() {
    assert_ne!(pair_key(1, 2), pair_key(2, 1));
    assert_eq!(pair_key(0, i64::MIN), 0);
    assert_eq!(pair_key(-1, i64::MAX), -1);
    assert_eq!(pair_key(1, i64::MIN), 1i128 << 64);
    assert!(pair_key(i64::MAX, i64::MAX) > pair_key(i64::MAX, i64::MAX - 1));
}
