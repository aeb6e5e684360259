use sparrow::util::order_key::{order_key, NAN_KEY, ZERO_KEY};
use sparrow::util::rank::{first_min_eligible, flipped_keys, key_at, last_max};

fn key(x: f32) -> u64 {
    order_key(x.to_bits())
}

#[test]
fn order_key_follows_float_order() {
    let values = [-f32::INFINITY, -3.5, -1.0, -0.0, 0.0, 1e-30, 0.5, 2.0, 1e30, f32::INFINITY];
    for i in 0..values.len() {
        for j in 0..values.len() {
            let a = values[i];
            let b = values[j];
            assert_eq!(key(a) < key(b), a < b, "{a} vs {b}");
            assert_eq!(key(a) == key(b), a == b, "{a} vs {b}");
        }
    }
}

#[test]
fn order_key_of_zeros_and_nan() {
    assert_eq!(key(0.0), ZERO_KEY);
    assert_eq!(key(-0.0), ZERO_KEY);
    assert_eq!(key(f32::NAN), NAN_KEY);
    assert_eq!(key(-f32::NAN), NAN_KEY);
    assert!(key(f32::INFINITY) < NAN_KEY);
    assert_eq!(key(1.0), 0x8000_0000 + 0x3f80_0000);
    assert_eq!(key(-1.0), 0x8000_0000 - 0x3f80_0000);
}

#[test]
fn first_min_eligible_takes_first_of_ties() {
    let keys = vec![5, 3, 7, 3, 1];
    let eligible = vec![true, true, true, true, false];
    assert_eq!(first_min_eligible(&keys, &eligible), Some(1));
    let none = vec![false; 5];
    assert_eq!(first_min_eligible(&keys, &none), None);
    let only_last = vec![false, false, false, false, true];
    assert_eq!(first_min_eligible(&keys, &only_last), Some(4));
    assert_eq!(first_min_eligible(&vec![], &vec![]), None);
}

#[test]
fn last_max_takes_last_of_ties() {
    assert_eq!(last_max(&vec![2, 9, 4, 9, 1]), Some(3));
    assert_eq!(last_max(&vec![4]), Some(0));
    assert_eq!(last_max(&vec![]), None);
}

#[test]
fn flipped_keys_reverse_the_order() {
    let keys = vec![0, 10, u64::MAX];
    assert_eq!(flipped_keys(&keys), vec![u64::MAX, u64::MAX - 10, 0]);
    assert_eq!(key_at(&keys, 1), 10);
}
