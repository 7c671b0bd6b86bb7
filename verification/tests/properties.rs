use rand_set::RandSet;
use std::collections::hash_map::RandomState;

#[test]
fn insert_idempotent() {
    let mut rs = RandSet::new();
    assert_eq!(rs.insert(23), true);
    assert_eq!(rs.len(), 1);
    assert_eq!(rs.insert(23), false);
    assert_eq!(rs.len(), 1);
}

#[test]
fn remove_reports_prior_membership() {
    let mut rs = RandSet::new();
    assert_eq!(rs.remove(&23), false);
    rs.insert(23);
    rs.insert(40);
    assert_eq!(rs.contains(&23), true);
    assert_eq!(rs.remove(&23), true);
    assert_eq!(rs.contains(&23), false);
    assert_eq!(rs.len(), 1);
    assert_eq!(rs.remove(&23), false);
    assert_eq!(rs.len(), 1);
}

#[test]
fn insert_remove_round_trip() {
    let mut rs = RandSet::new();
    rs.insert(23);
    rs.insert(40);
    let before = rs.iter();

    rs.insert(15);
    rs.remove(&15);

    assert_eq!(rs.len(), 2);
    assert_eq!(rs.contains(&23), true);
    assert_eq!(rs.contains(&40), true);
    assert_eq!(rs.contains(&15), false);
    assert!(rs == RandSet::from_values(before));
}

#[test]
fn reinsert_after_remove() {
    let mut rs = RandSet::new();
    rs.insert(23);
    rs.insert(40);
    rs.insert(15);
    rs.insert(17);
    assert_eq!(rs.len(), 4);
    assert_eq!(rs.contains(&23), true);

    assert_eq!(rs.remove(&23), true);
    assert_eq!(rs.len(), 3);
    assert_eq!(rs.contains(&23), false);

    assert_eq!(rs.insert(23), true);
    assert_eq!(rs.len(), 4);
    assert_eq!(rs.contains(&23), true);
}

#[test]
fn singleton_sampling() {
    let mut rs = RandSet::new();
    rs.insert(23);
    rs.insert(40);
    rs.remove(&23);
    for _ in 0..32 {
        assert_eq!(*rs.get_rand().unwrap(), 40);
    }
}

#[test]
fn sampling_returns_member() {
    let mut rs = RandSet::new();
    rs.insert(23);
    rs.insert(40);
    rs.insert(15);
    rs.insert(17);
    for _ in 0..64 {
        let v = *rs.get_rand().unwrap();
        assert!(rs.contains(&v));
    }
}

#[test]
fn equal_independent_of_order() {
    let mut a = RandSet::new();
    a.insert(23);
    a.insert(40);
    a.insert(80);
    a.insert(15);

    let mut b = RandSet::new();
    b.insert(15);
    b.insert(80);
    b.insert(40);
    b.insert(23);

    assert!(a == b);

    a.remove(&80);
    a.remove(&15);
    b.remove(&15);
    b.remove(&80);

    assert!(a == b);
    assert_eq!(a.len(), 2);
}

#[test]
fn from_values_deduplicates() {
    let rs = RandSet::from_values(vec![23, 40, 23, 15, 40]);
    assert_eq!(rs.len(), 3);
    assert!(rs.contains(&23));
    assert!(rs.contains(&40));
    assert!(rs.contains(&15));
}

#[test]
fn iter_lists_every_element_once() {
    let mut rs = RandSet::new();
    rs.insert(23);
    rs.insert(40);
    rs.insert(15);
    let mut listed = rs.iter();
    listed.sort();
    assert_eq!(listed, vec![15, 23, 40]);
}

#[test]
fn into_values_moves_elements_out() {
    let mut rs = RandSet::new();
    rs.insert(23);
    rs.insert(40);
    let mut values = rs.into_values();
    values.sort();
    assert_eq!(values, vec![23, 40]);
}

#[test]
fn get_returns_stored_copy() {
    let mut rs = RandSet::new();
    assert_eq!(rs.get(&23), None);
    rs.insert(23);
    assert_eq!(rs.get(&23), Some(&23));
    assert_eq!(rs.get(&40), None);
}

#[test]
fn clear_empties() {
    let mut rs = RandSet::new();
    rs.insert(23);
    rs.insert(40);
    rs.clear();
    assert_eq!(rs.len(), 0);
    assert!(rs.is_empty());
    assert!(rs.get_rand().is_none());
    assert!(rs == RandSet::new());
}

#[test]
fn construction_variants_start_empty() {
    let a = RandSet::with_capacity(16);
    assert!(a.is_empty());
    let _ = a.capacity();
    let b = RandSet::with_hasher(RandomState::new());
    assert!(b.is_empty());
    let _ = b.hasher();
    let c = RandSet::with_capacity_and_hasher(16, RandomState::new());
    assert!(c.is_empty());
    assert!(a == b);
    assert!(b == c);
}
