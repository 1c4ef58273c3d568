use vecdb::index::MagnitudeIndex;
use vecdb::key::order_key;
use vecdb::vector::Vector3D;

fn with_magnitude(magnitude: f64) -> Vector3D {
    Vector3D { x: 0, y: 0, z: 0, magnitude: magnitude.to_bits() }
}

fn key_of(magnitude: f64) -> u64 {
    order_key(magnitude.to_bits())
}

#[test]
fn new_index_finds_nothing() {
    let index = MagnitudeIndex::new();
    assert!(index.lookup(key_of(0.0)).is_empty());
    assert!(index.lookup(u64::MAX).is_empty());
}

#[test]
fn inserted_slots_come_back_ascending() {
    let mut index = MagnitudeIndex::new();
    let five = with_magnitude(5.0);
    index.on_insert(7, &five);
    index.on_insert(2, &five);
    index.on_insert(9, &five);
    index.on_insert(0, &five);
    index.on_insert(4, &with_magnitude(1.0));
    assert_eq!(index.lookup(key_of(5.0)), vec![0, 2, 7, 9]);
    assert_eq!(index.lookup(key_of(1.0)), vec![4]);
    assert!(index.lookup(key_of(2.0)).is_empty());
}

#[test]
fn slot_is_filed_once() {
    let mut index = MagnitudeIndex::new();
    let five = with_magnitude(5.0);
    index.on_insert(3, &five);
    index.on_insert(3, &five);
    assert_eq!(index.lookup(key_of(5.0)), vec![3]);
}

#[test]
fn removed_slot_leaves_its_key() {
    let mut index = MagnitudeIndex::new();
    let five = with_magnitude(5.0);
    index.on_insert(1, &five);
    index.on_insert(2, &five);
    index.on_insert(3, &five);
    index.on_remove(2, &five);
    assert_eq!(index.lookup(key_of(5.0)), vec![1, 3]);
    index.on_remove(2, &five);
    assert_eq!(index.lookup(key_of(5.0)), vec![1, 3]);
    index.on_remove(1, &with_magnitude(6.0));
    assert_eq!(index.lookup(key_of(5.0)), vec![1, 3]);
    index.on_remove(1, &five);
    index.on_remove(3, &five);
    assert!(index.lookup(key_of(5.0)).is_empty());
}

#[test]
fn replaced_slot_moves_between_keys() {
    let mut index = MagnitudeIndex::new();
    let one = with_magnitude(1.0);
    let two = with_magnitude(2.0);
    index.on_insert(0, &one);
    index.on_insert(1, &one);
    index.on_insert(2, &two);
    index.on_replace(0, &one, &two);
    assert_eq!(index.lookup(key_of(1.0)), vec![1]);
    assert_eq!(index.lookup(key_of(2.0)), vec![0, 2]);
    index.on_replace(2, &two, &two);
    assert_eq!(index.lookup(key_of(2.0)), vec![0, 2]);
    index.on_replace(1, &one, &two);
    assert!(index.lookup(key_of(1.0)).is_empty());
    assert_eq!(index.lookup(key_of(2.0)), vec![0, 1, 2]);
}

#[test]
fn many_slots_stay_sorted() {
    let mut index = MagnitudeIndex::new();
    let five = with_magnitude(5.0);
    for slot in (0..200).rev() {
        index.on_insert(slot * 3 % 200, &five);
    }
    let expected: Vec<usize> = (0..200).collect();
    assert_eq!(index.lookup(key_of(5.0)), expected);
    for slot in (0..200).step_by(2) {
        index.on_remove(slot, &five);
    }
    let odd: Vec<usize> = (0..200).filter(|slot| slot % 2 == 1).collect();
    assert_eq!(index.lookup(key_of(5.0)), odd);
}
