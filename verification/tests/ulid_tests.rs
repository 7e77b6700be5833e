use std::collections::HashSet;

use uidgen::ulid::Ulid;

#[test]
fn test_ulid_length() {
    let ulid = Ulid::new();
    let ulid_str = ulid.to_string();
    assert_eq!(ulid_str.len(), 26, "ULID length should be 26 characters");
}

#[test]
fn test_ulid_uniqueness() {
    let mut set = HashSet::new();
    let count = 10_000;

    for _ in 0..count {
        let ulid = Ulid::new().to_string();
        assert!(
            set.insert(ulid),
            "Duplicate ULID detected during uniqueness test"
        );
    }
}

#[test]
fn test_ulid_alphabet() {
    let alphabet = "0123456789ABCDEFGHJKMNPQRSTVWXYZ";
    let ulid_str = Ulid::new().to_string();
    for c in ulid_str.chars() {
        assert!(
            alphabet.contains(c),
            "character {} is outside the Crockford Base32 alphabet",
            c
        );
    }
}

#[test]
fn test_ulid_encoding_exact() {
    assert_eq!(
        Ulid::from_parts(0, 0).to_string(),
        "00000000000000000000000000"
    );
    // The all-ones value: 2 leading zero bits, then a 3-bit '7', then
    // twenty-five full 'Z' digits.
    assert_eq!(
        Ulid::from_parts(0xFFFF_FFFF_FFFF, u128::MAX).to_string(),
        "7ZZZZZZZZZZZZZZZZZZZZZZZZZ"
    );
    // Randomness value 32 occupies the two lowest Base32 digits as "10".
    assert_eq!(
        Ulid::from_parts(0, 32).to_string(),
        "00000000000000000000000010"
    );
}

#[test]
fn test_ulid_masks_high_bits() {
    // Only the low 48 bits of the timestamp and the low 80 bits of the
    // randomness enter the value.
    let a = Ulid::from_parts(u64::MAX, 0);
    let b = Ulid::from_parts(0xFFFF_FFFF_FFFF, 0);
    assert_eq!(a.id, b.id);
    let c = Ulid::from_parts(0, u128::MAX);
    assert_eq!(c.id, (1u128 << 80) - 1);
}

#[test]
fn test_ulid_text_order() {
    // Strictly increasing milliseconds give strictly increasing text,
    // whatever the randomness.
    let earlier = Ulid::from_parts(1_700_000_000_000, u128::MAX).to_string();
    let later = Ulid::from_parts(1_700_000_000_001, 0).to_string();
    assert!(
        earlier < later,
        "expected {} < {}",
        earlier,
        later
    );
}
