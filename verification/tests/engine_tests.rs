use batch_item::engine::{item_from_engine, item_into_engine};
use batch_item::{Item, ItemError, ValueType};

#[test]
fn into_engine_keeps_every_byte() {
    let item = Item::new(
        b"users".to_vec(),
        b"alice".to_vec(),
        b"active".to_vec(),
        ValueType::Value,
    );
    let (partition, key, value) = item_into_engine(item);
    assert_eq!(partition.as_slice(), b"users");
    assert_eq!(key.as_slice(), b"alice");
    assert_eq!(value.as_slice(), b"active");
}

#[test]
fn from_engine_round_trips() {
    let partition = lsm_tree::Slice::from(b"users".to_vec());
    let key = lsm_tree::Slice::from(b"bob".to_vec());
    let value = lsm_tree::Slice::from(b"x".to_vec());
    let item = item_from_engine(&partition, &key, &value, ValueType::Tombstone).unwrap();
    assert_eq!(item.partition, b"users".to_vec());
    assert_eq!(item.key, b"bob".to_vec());
    assert_eq!(item.value, b"x".to_vec());
    assert_eq!(item.value_type, ValueType::Tombstone);
}

#[test]
fn from_engine_rejects_empty_partition() {
    let partition = lsm_tree::Slice::from(Vec::<u8>::new());
    let key = lsm_tree::Slice::from(b"k".to_vec());
    let value = lsm_tree::Slice::from(Vec::<u8>::new());
    let r = item_from_engine(&partition, &key, &value, ValueType::Value);
    assert_eq!(r.unwrap_err(), ItemError::EmptyPartition);
}
