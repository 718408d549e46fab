use std::cmp::Ordering;

use batch_item::compact::sort_by_key;
use batch_item::CompactItem;
use batch_item::Item;
use batch_item::key_cmp;
use batch_item::ValueType;

type Record = CompactItem<Vec<u8>, Vec<u8>>;

fn keys_of(records: &[Record]) -> Vec<Vec<u8>> {
    records.iter().map(|r| r.key().clone()).collect()
}

#[test]
fn key_cmp_is_byte_lexicographic() {
    assert_eq!(key_cmp(&b"abc".to_vec(), &b"abd".to_vec()), Ordering::Less);
    assert_eq!(key_cmp(&b"abd".to_vec(), &b"abc".to_vec()), Ordering::Greater);
    assert_eq!(key_cmp(&b"abc".to_vec(), &b"abc".to_vec()), Ordering::Equal);
    assert_eq!(key_cmp(&b"ab".to_vec(), &b"abc".to_vec()), Ordering::Less);
    assert_eq!(key_cmp(&b"abc".to_vec(), &b"ab".to_vec()), Ordering::Greater);
    assert_eq!(key_cmp(&Vec::<u8>::new(), &Vec::<u8>::new()), Ordering::Equal);
    assert_eq!(key_cmp(&Vec::<u8>::new(), &b"a".to_vec()), Ordering::Less);
}

#[test]
fn ordering_ignores_marker_kind() {
    let a: Record = CompactItem::Tombstone(b"a".to_vec());
    let b: Record = CompactItem::Value {
        key: b"b".to_vec(),
        value: b"payload".to_vec(),
    };
    let c: Record = CompactItem::WeakTombstone(b"c".to_vec());
    assert_eq!(a.cmp(&b), Ordering::Less);
    assert_eq!(b.cmp(&c), Ordering::Less);
    assert_eq!(a.cmp(&c), Ordering::Less);
    assert!(a < b);
    assert!(b < c);
    assert!(a < c);
}

#[test]
fn equality_ignores_marker_kind_and_payload() {
    let k = b"k".to_vec();
    let v1: Record = CompactItem::Value {
        key: k.clone(),
        value: b"one".to_vec(),
    };
    let v2: Record = CompactItem::Value {
        key: k.clone(),
        value: b"two".to_vec(),
    };
    let t: Record = CompactItem::Tombstone(k.clone());
    let w: Record = CompactItem::WeakTombstone(k.clone());
    assert_eq!(v1, v2);
    assert_eq!(v1, t);
    assert_eq!(t, w);
    assert_eq!(v1.cmp(&t), Ordering::Equal);
    let other: Record = CompactItem::Tombstone(b"other".to_vec());
    assert_ne!(v1, other);
}

#[test]
fn key_reads_the_same_field_of_every_variant() {
    let v: Record = CompactItem::Value {
        key: b"k1".to_vec(),
        value: b"x".to_vec(),
    };
    let t: Record = CompactItem::Tombstone(b"k2".to_vec());
    let w: Record = CompactItem::WeakTombstone(b"k3".to_vec());
    assert_eq!(v.key(), &b"k1".to_vec());
    assert_eq!(t.key(), &b"k2".to_vec());
    assert_eq!(w.key(), &b"k3".to_vec());
}

#[test]
fn from_item_keeps_key_and_marker() {
    let value = CompactItem::from_item(Item::new(
        b"p".to_vec(),
        b"k".to_vec(),
        b"v".to_vec(),
        ValueType::Value,
    ));
    assert!(matches!(
        value,
        CompactItem::Value { ref key, ref value } if key == b"k" && value == b"v"
    ));
    let tomb = CompactItem::from_item(Item::new(
        b"p".to_vec(),
        b"k".to_vec(),
        Vec::new(),
        ValueType::Tombstone,
    ));
    assert!(matches!(tomb, CompactItem::Tombstone(ref key) if key == b"k"));
    let weak = CompactItem::from_item(Item::new(
        b"p".to_vec(),
        b"k".to_vec(),
        Vec::new(),
        ValueType::WeakTombstone,
    ));
    assert!(matches!(weak, CompactItem::WeakTombstone(ref key) if key == b"k"));
}

#[test]
fn sort_by_key_sorts_and_is_idempotent() {
    let records: Vec<Record> = vec![
        CompactItem::Tombstone(b"pear".to_vec()),
        CompactItem::Value {
            key: b"apple".to_vec(),
            value: b"1".to_vec(),
        },
        CompactItem::WeakTombstone(b"fig".to_vec()),
        CompactItem::Value {
            key: b"apple".to_vec(),
            value: b"2".to_vec(),
        },
    ];
    let sorted = sort_by_key(records);
    let keys = keys_of(&sorted);
    assert_eq!(keys[0], b"apple".to_vec());
    assert_eq!(keys[1], b"apple".to_vec());
    assert_eq!(keys[2], b"fig".to_vec());
    assert_eq!(keys[3], b"pear".to_vec());
    // the sort is stable: the two apple records keep their arrival order
    assert!(matches!(&sorted[0], CompactItem::Value { value, .. } if value == b"1"));
    assert!(matches!(&sorted[1], CompactItem::Value { value, .. } if value == b"2"));

    let again = sort_by_key(sorted.clone());
    assert_eq!(keys_of(&again), keys_of(&sorted));
    for (x, y) in again.iter().zip(sorted.iter()) {
        let same_shape = match (x, y) {
            (
                CompactItem::Value { key: k1, value: v1 },
                CompactItem::Value { key: k2, value: v2 },
            ) => k1 == k2 && v1 == v2,
            (CompactItem::Tombstone(k1), CompactItem::Tombstone(k2)) => k1 == k2,
            (CompactItem::WeakTombstone(k1), CompactItem::WeakTombstone(k2)) => k1 == k2,
            _ => false,
        };
        assert!(same_shape);
    }
}

#[test]
fn sort_groups_equal_keys_contiguously() {
    let records: Vec<Record> = vec![
        CompactItem::Value {
            key: b"b".to_vec(),
            value: b"1".to_vec(),
        },
        CompactItem::Tombstone(b"a".to_vec()),
        CompactItem::WeakTombstone(b"b".to_vec()),
        CompactItem::Value {
            key: b"a".to_vec(),
            value: b"2".to_vec(),
        },
        CompactItem::Tombstone(b"b".to_vec()),
    ];
    let sorted = sort_by_key(records);
    let keys = keys_of(&sorted);
    // every run of one key is contiguous: once the key changes it never returns
    let mut seen: Vec<Vec<u8>> = Vec::new();
    for k in keys {
        if seen.last() != Some(&k) {
            assert!(!seen.contains(&k));
            seen.push(k);
        }
    }
    assert_eq!(seen, vec![b"a".to_vec(), b"b".to_vec()]);
}

#[test]
fn merge_scenario_orders_alice_before_bob() {
    let put = Item::new(
        b"users".to_vec(),
        b"alice".to_vec(),
        b"active".to_vec(),
        ValueType::Value,
    );
    let del = Item::new(
        b"users".to_vec(),
        b"alice".to_vec(),
        Vec::new(),
        ValueType::Tombstone,
    );
    let bob = Item::new(
        b"users".to_vec(),
        b"bob".to_vec(),
        b"x".to_vec(),
        ValueType::Value,
    );
    let records: Vec<Record> = vec![
        CompactItem::from_item(put),
        CompactItem::from_item(del),
        CompactItem::from_item(bob),
    ];
    let sorted = sort_by_key(records);
    let keys = keys_of(&sorted);
    // both alice records precede bob; their mutual order is not fixed
    assert_eq!(keys[0], b"alice".to_vec());
    assert_eq!(keys[1], b"alice".to_vec());
    assert_eq!(keys[2], b"bob".to_vec());
    assert!(sorted[0] == sorted[1]);
    assert!(sorted[1] < sorted[2]);
}
