use std::collections::HashSet;

use uidgen::snowflake_id::decode_decimal;
use uidgen::snowflake_id::SnowflakeId;
use uidgen::snowflake_id::SnowflakeState;

const MACHINE_ID: u16 = 1;
const EPOCH: u64 = 1_700_000_000_000;

#[test]
fn test_snowflake_id_length() {
    let mut state = SnowflakeState::init();
    let id = SnowflakeId::new(MACHINE_ID, EPOCH, &mut state);
    assert!(id.id <= u64::MAX, "Snowflake ID must fit in 64 bits");
}

#[test]
fn test_snowflake_id_order() {
    let mut state = SnowflakeState::init();
    let id1 = SnowflakeId::new(MACHINE_ID, EPOCH, &mut state).id;
    let id2 = SnowflakeId::new(MACHINE_ID, EPOCH, &mut state).id;
    assert!(
        id1 < id2,
        "IDs should be ordered; expected {} < {}",
        id1,
        id2
    );
}

#[test]
fn test_snowflake_id_uniqueness() {
    let mut state = SnowflakeState::init();
    let mut seen = HashSet::new();
    let count = 10_000;

    for _ in 0..count {
        let id = SnowflakeId::new(MACHINE_ID, EPOCH, &mut state).id;
        assert!(seen.insert(id), "Duplicate Snowflake ID detected: {}", id);
    }
}

#[test]
fn test_snowflake_round_trip() {
    // The decimal text decodes back to the packed integer, and the bit
    // fields reproduce the timestamp delta, node id and sequence.
    let mut state = SnowflakeState::init();
    let id = SnowflakeId::new(MACHINE_ID, EPOCH, &mut state);
    let text = id.to_string();
    let decoded = decode_decimal(&text).expect("decimal text must decode");
    assert_eq!(decoded, id.id);
    assert_eq!(
        decoded >> 22,
        (state.last_timestamp - EPOCH) & 0x1FF_FFFF_FFFF
    );
    assert_eq!((decoded >> 12) & 0x3FF, MACHINE_ID as u64);
    assert_eq!(decoded & 0xFFF, state.sequence as u64);
}

#[test]
fn test_snowflake_sequence_same_millisecond() {
    // Identifiers of one millisecond differ exactly in the sequence
    // field and never collide.
    let mut state = SnowflakeState::init();
    let id1 = SnowflakeId::new(MACHINE_ID, EPOCH, &mut state);
    let ts1 = state.last_timestamp;
    let seq1 = state.sequence;
    let id2 = SnowflakeId::new(MACHINE_ID, EPOCH, &mut state);
    if state.last_timestamp == ts1 {
        assert_eq!(state.sequence, seq1 + 1);
        assert_eq!(id2.id, id1.id + 1);
    } else {
        assert_eq!(state.sequence, 0);
    }
}

#[test]
fn test_snowflake_node_id_masked() {
    // A node id wider than 10 bits is masked, not rejected.
    let mut state = SnowflakeState::init();
    let id = SnowflakeId::new(0x7FF, EPOCH, &mut state);
    assert_eq!((id.id >> 12) & 0x3FF, 0x3FF);
}

#[test]
fn test_snowflake_to_string_exact() {
    let id = SnowflakeId { id: 1234567890123456789 };
    assert_eq!(id.to_string(), "1234567890123456789");
    let zero = SnowflakeId { id: 0 };
    assert_eq!(zero.to_string(), "0");
    let max = SnowflakeId { id: u64::MAX };
    assert_eq!(max.to_string(), "18446744073709551615");
}

#[test]
fn test_decode_decimal_cases() {
    assert_eq!(decode_decimal("0"), Some(0));
    assert_eq!(decode_decimal("42"), Some(42));
    assert_eq!(decode_decimal("007"), Some(7));
    assert_eq!(decode_decimal("18446744073709551615"), Some(u64::MAX));
    // Too large for 64 bits.
    assert_eq!(decode_decimal("18446744073709551616"), None);
    // Empty or not all digits.
    assert_eq!(decode_decimal(""), None);
    assert_eq!(decode_decimal("12a"), None);
    assert_eq!(decode_decimal("-5"), None);
}
