use std::collections::HashSet;

use uidgen::object_id::ObjectId;
use uidgen::object_id::ObjectIdState;

#[test]
fn test_object_id_length() {
    let mut state = ObjectIdState::init();
    let obj_id = ObjectId::new(&mut state);
    let hex = obj_id.to_string();
    assert_eq!(
        hex.len(),
        24,
        "ObjectId hex string should be 24 chars (12 bytes)"
    );
}

#[test]
fn test_object_id_order() {
    let mut state = ObjectIdState::init();
    let id1 = ObjectId::new(&mut state).to_string();
    let id2 = ObjectId::new(&mut state).to_string();

    assert!(
        id1 < id2,
        "ObjectIds should be ordered; expected {} < {}",
        id1,
        id2
    );
}

#[test]
fn test_object_id_uniqueness() {
    let mut state = ObjectIdState::init();
    let mut set = HashSet::new();
    let count = 10_000;

    for _ in 0..count {
        let obj_id = ObjectId::new(&mut state).to_string();
        assert!(
            set.insert(obj_id),
            "Duplicate ObjectId detected during uniqueness test"
        );
    }
}

#[test]
fn test_object_id_encoding_exact() {
    let id = ObjectId::from_parts(0x0102_0304, 0x05_0607_0809, 0x0a0b0c);
    assert_eq!(id.to_string(), "0102030405060708090a0b0c");
    let zero = ObjectId::from_parts(0, 0, 0);
    assert_eq!(zero.to_string(), "000000000000000000000000");
}

#[test]
fn test_object_id_masks_high_bits() {
    // Only the low 40 bits of the tag and the low 24 bits of the counter
    // enter the value.
    let a = ObjectId::from_parts(0, u64::MAX, u32::MAX);
    let b = ObjectId::from_parts(0, 0xFF_FFFF_FFFF, 0xFF_FFFF);
    assert_eq!(a.id, b.id);
}

#[test]
fn test_object_id_machine_tag_fixed() {
    // One process tag for every identifier the state produces.
    let mut state = ObjectIdState::init();
    let tag = state.machine_id;
    for _ in 0..100 {
        let hex = ObjectId::new(&mut state).to_string();
        assert_eq!(hex[8..18], format!("{:010x}", tag)[..]);
    }
}
