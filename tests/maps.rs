use rewards::hex::{decode_hex, HexError};
use rewards::locks::{add_lock, expire_locks, merge_locks, sum_locks};
use rewards::OrdMap;

#[test]
fn from_pairs_sorts_and_keeps_later() {
    let m = OrdMap::from_pairs(vec![(5u64, 1u128), (2, 2), (5, 3)]);
    assert_eq!(m.as_vec(), &vec![(2, 2), (5, 3)]);
    assert_eq!(m.get(5), Some(&3));
    assert_eq!(m.get(4), None);
}

#[test]
fn insert_and_remove() {
    let mut m: OrdMap<u128> = OrdMap::new();
    m.insert(3, 30);
    m.insert(1, 10);
    m.insert(2, 20);
    m.insert(3, 33);
    assert_eq!(m.as_vec(), &vec![(1, 10), (2, 20), (3, 33)]);
    assert_eq!(m.remove(2), Some(20));
    assert_eq!(m.remove(2), None);
    assert_eq!(m.into_vec(), vec![(1, 10), (3, 33)]);
}

#[test]
fn take_due_splits_at_height() {
    let mut m = OrdMap::from_pairs(vec![(1u64, 1u128), (5, 5), (6, 6), (9, 9)]);
    assert_eq!(m.take_due(6), vec![(1, 1), (5, 5), (6, 6)]);
    assert_eq!(m.as_vec(), &vec![(9, 9)]);
    assert_eq!(m.take_due(u64::MAX), vec![(9, 9)]);
    assert_eq!(m.len(), 0);
}

#[test]
fn merging_lock_maps() {
    let mut a = OrdMap::from_pairs(vec![(10u64, 5u128), (20, u128::MAX)]);
    let b = OrdMap::from_pairs(vec![(10u64, 7u128), (20, 1), (30, 2)]);
    merge_locks(&mut a, &b);
    assert_eq!(a.as_vec(), &vec![(10, 12), (20, u128::MAX), (30, 2)]);
    add_lock(&mut a, 5, 1);
    assert_eq!(a.as_vec(), &vec![(5, 1), (10, 12), (20, u128::MAX), (30, 2)]);
    assert_eq!(sum_locks(&a), u128::MAX);
}

#[test]
fn expiring_locks() {
    let mut a = OrdMap::from_pairs(vec![(50u64, 10u128), (150, 20)]);
    assert_eq!(expire_locks(&mut a, 100), 20);
    assert_eq!(a.as_vec(), &vec![(150, 20)]);
    assert_eq!(expire_locks(&mut a, 150), 0);
    assert_eq!(a.len(), 0);
}

#[test]
fn hex_pairs() {
    assert_eq!(decode_hex(&b"0aff".to_vec()), Ok(vec![10, 255]));
    assert_eq!(decode_hex(&b"A0+f".to_vec()), Ok(vec![160, 15]));
    assert_eq!(decode_hex(&b"".to_vec()), Ok(vec![]));
    assert_eq!(decode_hex(&b"0g".to_vec()), Err(HexError));
    assert_eq!(decode_hex(&b"f+".to_vec()), Err(HexError));
}
