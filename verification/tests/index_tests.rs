use zentry_db::{BTreeIndex, Uuid};

fn id(n: u128) -> Uuid {
    Uuid::from_u128(n)
}

#[test]
fn a_new_index_is_empty() {
    let index = BTreeIndex::new();
    assert_eq!(index.len(), 0);
    assert_eq!(index.get(&id(1)), None);
    assert!(index.persist().is_empty());
}

#[test]
fn insert_then_get() {
    let mut index = BTreeIndex::new();
    index.insert(id(7), 100);
    index.insert(id(3), 57);
    assert_eq!(index.len(), 2);
    assert_eq!(index.get(&id(7)), Some(100));
    assert_eq!(index.get(&id(3)), Some(57));
    assert_eq!(index.get(&id(4)), None);
}

#[test]
fn a_later_offset_replaces_an_earlier_one() {
    let mut index = BTreeIndex::new();
    index.insert(id(7), 100);
    index.insert(id(7), 200);
    assert_eq!(index.len(), 1);
    assert_eq!(index.get(&id(7)), Some(200));
}

#[test]
fn range_lists_from_start_up_to_but_not_end_in_order() {
    let mut index = BTreeIndex::new();
    for n in [50u128, 10, 40, 20, 30] {
        index.insert(id(n), n as u64 * 2);
    }
    assert_eq!(
        index.range(&id(20), &id(50)),
        vec![(id(20), 40), (id(30), 60), (id(40), 80)]
    );
    assert_eq!(index.range(&id(0), &id(11)), vec![(id(10), 20)]);
    assert_eq!(index.range(&id(51), &id(u128::MAX)), vec![]);
    assert_eq!(index.range(&id(0), &id(u128::MAX)).len(), 5);
}

#[test]
fn an_empty_or_inverted_range_lists_nothing() {
    let mut index = BTreeIndex::new();
    index.insert(id(5), 1);
    assert_eq!(index.range(&id(5), &id(5)), vec![]);
    assert_eq!(index.range(&id(9), &id(1)), vec![]);
}

#[test]
fn order_is_that_of_the_identifier_bytes() {
    let mut index = BTreeIndex::new();
    let small = Uuid::from_bytes([0, 0, 0, 0, 0, 0, 0, 0, 0, 0, 0, 0, 0, 0, 0, 9]);
    let large = Uuid::from_bytes([1, 0, 0, 0, 0, 0, 0, 0, 0, 0, 0, 0, 0, 0, 0, 0]);
    index.insert(large, 1);
    index.insert(small, 2);
    let listed = index.range(&Uuid::nil(), &id(u128::MAX));
    assert_eq!(listed, vec![(small, 2), (large, 1)]);
}

#[test]
fn the_flat_form_is_twenty_four_bytes_an_entry_in_order() {
    let mut index = BTreeIndex::new();
    index.insert(id(0x0200), 0x0102_0304_0506_0708);
    index.insert(id(1), 57);
    let bytes = index.persist();
    let mut expected = Vec::new();
    expected.extend_from_slice(&1u128.to_be_bytes());
    expected.extend_from_slice(&57u64.to_le_bytes());
    expected.extend_from_slice(&0x0200u128.to_be_bytes());
    expected.extend_from_slice(&0x0102_0304_0506_0708u64.to_le_bytes());
    assert_eq!(bytes, expected);
}

#[test]
fn the_greatest_identifier_is_persisted_too() {
    let mut index = BTreeIndex::new();
    index.insert(id(u128::MAX), 9);
    index.insert(id(0), 4);
    let bytes = index.persist();
    assert_eq!(bytes.len(), 48);
    assert_eq!(&bytes[24..40], &[0xff; 16]);
    assert_eq!(index.entries(), vec![(0, 4), (u128::MAX, 9)]);
}

#[test]
fn what_was_persisted_loads_as_the_same_index() {
    let mut index = BTreeIndex::new();
    for n in 0..100u128 {
        index.insert(id(n * n * 0x1_0000_0001), (n * 57) as u64);
    }
    let loaded = BTreeIndex::load(&index.persist());
    assert_eq!(loaded.len(), 100);
    assert_eq!(loaded.entries(), index.entries());
    assert_eq!(loaded.get(&id(9 * 0x1_0000_0001)), Some(3 * 57));
}

#[test]
fn loading_leaves_a_trailing_part_of_an_entry_aside() {
    let mut index = BTreeIndex::new();
    index.insert(id(1), 2);
    let mut bytes = index.persist();
    bytes.extend_from_slice(&[0xaa; 23]);
    let loaded = BTreeIndex::load(&bytes);
    assert_eq!(loaded.len(), 1);
    assert_eq!(loaded.get(&id(1)), Some(2));
    assert_eq!(BTreeIndex::load(&[]).len(), 0);
    assert_eq!(BTreeIndex::load(&[0; 23]).len(), 0);
}

#[test]
fn loading_lets_a_later_entry_replace_an_earlier_one() {
    let mut bytes = Vec::new();
    bytes.extend_from_slice(&5u128.to_be_bytes());
    bytes.extend_from_slice(&1u64.to_le_bytes());
    bytes.extend_from_slice(&5u128.to_be_bytes());
    bytes.extend_from_slice(&2u64.to_le_bytes());
    let loaded = BTreeIndex::load(&bytes);
    assert_eq!(loaded.len(), 1);
    assert_eq!(loaded.get(&id(5)), Some(2));
}
