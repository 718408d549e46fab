use batch_item::Item;
use batch_item::ItemError;
use batch_item::ValueType;

#[test]
fn new_round_trips_fields() {
    let item = Item::new(
        b"users".to_vec(),
        b"alice".to_vec(),
        b"active".to_vec(),
        ValueType::Value,
    );
    assert_eq!(item.partition, b"users".to_vec());
    assert_eq!(item.key, b"alice".to_vec());
    assert_eq!(item.value, b"active".to_vec());
    assert_eq!(item.value_type, ValueType::Value);
}

#[test]
fn new_accepts_boundary_sizes() {
    let item = Item::new(
        vec![7u8; 255],
        vec![8u8; 65535],
        Vec::new(),
        ValueType::Tombstone,
    );
    assert_eq!(item.partition.len(), 255);
    assert_eq!(item.key.len(), 65535);
    assert!(item.value.is_empty());
    assert_eq!(item.value_type, ValueType::Tombstone);
}

#[test]
fn try_new_accepts_valid_inputs() {
    let item = Item::try_new(
        b"p".to_vec(),
        b"k".to_vec(),
        b"v".to_vec(),
        ValueType::WeakTombstone,
    )
    .unwrap();
    assert_eq!(item.partition, b"p".to_vec());
    assert_eq!(item.key, b"k".to_vec());
    assert_eq!(item.value, b"v".to_vec());
    assert_eq!(item.value_type, ValueType::WeakTombstone);
}

#[test]
fn try_new_rejects_empty_partition() {
    let r = Item::try_new(Vec::new(), b"k".to_vec(), Vec::new(), ValueType::Value);
    assert_eq!(r.unwrap_err(), ItemError::EmptyPartition);
}

#[test]
fn try_new_rejects_empty_key() {
    let r = Item::try_new(b"p".to_vec(), Vec::new(), Vec::new(), ValueType::Value);
    assert_eq!(r.unwrap_err(), ItemError::EmptyKey);
}

#[test]
fn try_new_rejects_partition_of_256_bytes() {
    let r = Item::try_new(vec![0u8; 256], b"k".to_vec(), Vec::new(), ValueType::Value);
    assert_eq!(r.unwrap_err(), ItemError::PartitionTooLong);
}

#[test]
fn try_new_rejects_key_of_65536_bytes() {
    let r = Item::try_new(b"p".to_vec(), vec![0u8; 65536], Vec::new(), ValueType::Value);
    assert_eq!(r.unwrap_err(), ItemError::KeyTooLong);
}

#[test]
fn render_shows_weak_tombstone_marker() {
    let item = Item::new(
        b"users".to_vec(),
        b"alice".to_vec(),
        Vec::new(),
        ValueType::WeakTombstone,
    );
    assert_eq!(item.render(), "7573657273:616c696365:W => ");
}

#[test]
fn render_markers_are_distinct() {
    let value = Item::new(b"p".to_vec(), b"k".to_vec(), b"x".to_vec(), ValueType::Value);
    let tomb = Item::new(b"p".to_vec(), b"k".to_vec(), b"x".to_vec(), ValueType::Tombstone);
    let weak = Item::new(
        b"p".to_vec(),
        b"k".to_vec(),
        b"x".to_vec(),
        ValueType::WeakTombstone,
    );
    assert_eq!(value.render(), "70:6b:V => 78");
    assert_eq!(tomb.render(), "70:6b:T => 78");
    assert_eq!(weak.render(), "70:6b:W => 78");
    assert_ne!(value.render(), tomb.render());
    assert_ne!(tomb.render(), weak.render());
    assert_ne!(value.render(), weak.render());
}

#[test]
fn configurable_value_bound_documented_limit() {
    let ok = Item::try_new_with_max_value_size(
        b"p".to_vec(),
        b"k".to_vec(),
        vec![0u8; 65535],
        ValueType::Value,
        65535,
    );
    assert!(ok.is_ok());
    let too_long = Item::try_new_with_max_value_size(
        b"p".to_vec(),
        b"k".to_vec(),
        vec![0u8; 65536],
        ValueType::Value,
        65535,
    );
    assert_eq!(too_long.unwrap_err(), ItemError::ValueTooLong);
}

#[test]
fn configurable_value_bound_prefix_limit() {
    let ok = Item::try_new_with_max_value_size(
        b"p".to_vec(),
        b"k".to_vec(),
        vec![0u8; 65536],
        ValueType::Value,
        u32::MAX,
    );
    assert!(ok.is_ok());
}
