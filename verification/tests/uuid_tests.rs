use std::collections::hash_map::DefaultHasher;
use std::hash::{Hash, Hasher};
use zentry_db::{generate_deterministic_uuid, Double, Uuid};

fn digest_of<T: Hash + ?Sized>(value: &T) -> u64 {
    let mut hasher = DefaultHasher::new();
    value.hash(&mut hasher);
    hasher.finish()
}

fn bytes_of_digest(digest: u64) -> Vec<u8> {
    let mut bytes = digest.to_le_bytes().to_vec();
    bytes.extend_from_slice(&digest.rotate_right(32).to_le_bytes());
    bytes
}

#[test]
fn nil_is_all_zero() {
    assert_eq!(Uuid::nil().as_u128(), 0);
    assert_eq!(Uuid::nil().to_bytes(), vec![0u8; 16]);
}

#[test]
fn bytes_are_most_significant_first() {
    let id = Uuid::from_u128(0x0102_0304_0506_0708_090a_0b0c_0d0e_0f10);
    assert_eq!(
        id.to_bytes(),
        vec![1, 2, 3, 4, 5, 6, 7, 8, 9, 10, 11, 12, 13, 14, 15, 16]
    );
}

#[test]
fn from_bytes_reads_what_to_bytes_wrote() {
    let bytes = [0xff, 0, 1, 2, 3, 4, 5, 6, 7, 8, 9, 10, 11, 12, 13, 0x80];
    let id = Uuid::from_bytes(bytes);
    assert_eq!(id.as_u128(), 0xff00_0102_0304_0506_0708_090a_0b0c_0d80);
    assert_eq!(id.to_bytes(), bytes.to_vec());
}

#[test]
fn identifiers_are_ordered_as_their_bytes() {
    let low = Uuid::from_bytes([0, 0, 0, 0, 0, 0, 0, 0, 0, 0, 0, 0, 0, 0, 0, 0xff]);
    let high = Uuid::from_bytes([0, 0, 0, 0, 0, 0, 0, 0, 0, 0, 0, 0, 0, 0, 1, 0]);
    assert!(low.to_bytes() < high.to_bytes());
    assert!(low.as_u128() < high.as_u128());
}

#[test]
fn derived_identifier_is_digest_then_rotated_digest() {
    let id = generate_deterministic_uuid("USD");
    assert_eq!(id.to_bytes(), bytes_of_digest(digest_of("USD")));
}

#[test]
fn derived_identifier_of_a_string_and_of_its_slice_agree() {
    let owned = String::from("USD -> IDR");
    assert_eq!(generate_deterministic_uuid(&owned), generate_deterministic_uuid("USD -> IDR"));
    assert_eq!(
        generate_deterministic_uuid(&owned).to_bytes(),
        bytes_of_digest(digest_of(&owned))
    );
}

#[test]
fn derived_identifier_of_the_empty_string() {
    assert_eq!(generate_deterministic_uuid("").to_bytes(), bytes_of_digest(digest_of("")));
}

#[test]
fn equal_keys_give_equal_identifiers_and_other_keys_others() {
    assert_eq!(generate_deterministic_uuid("IDR"), generate_deterministic_uuid("IDR"));
    assert_ne!(generate_deterministic_uuid("IDR"), generate_deterministic_uuid("USD"));
}

#[test]
fn second_half_is_the_first_half_with_its_words_exchanged() {
    let bytes = generate_deterministic_uuid("SGD").to_bytes();
    assert_eq!(&bytes[8..12], &bytes[4..8]);
    assert_eq!(&bytes[12..16], &bytes[0..4]);
}

#[test]
fn identifier_derived_from_an_identifier_hashes_its_sixteen_bytes() {
    let id = Uuid::from_u128(0x1234_5678_9abc_def0_0fed_cba9_8765_4321);
    let mut array = [0u8; 16];
    array.copy_from_slice(&id.to_bytes());
    let mut hasher = DefaultHasher::new();
    hasher.write(&16u64.to_le_bytes());
    hasher.write(&array);
    assert_eq!(generate_deterministic_uuid(&id).to_bytes(), bytes_of_digest(hasher.finish()));
}

#[test]
fn epsilon_itself_does_not_exceed_epsilon() {
    assert!(!Double::from_bits(f64::EPSILON.to_bits()).exceeds_epsilon());
    assert!(!Double::from_bits((-f64::EPSILON).to_bits()).exceeds_epsilon());
    assert!(!Double::from_bits(0.0f64.to_bits()).exceeds_epsilon());
    assert!(!Double::from_bits((-0.0f64).to_bits()).exceeds_epsilon());
}

#[test]
fn the_next_double_after_epsilon_exceeds_it() {
    let next = f64::from_bits(f64::EPSILON.to_bits() + 1);
    assert!(Double::from_bits(next.to_bits()).exceeds_epsilon());
    assert!(Double::from_bits((-next).to_bits()).exceeds_epsilon());
    assert!(Double::from_bits(10.0f64.to_bits()).exceeds_epsilon());
    assert!(Double::from_bits((-10.0f64).to_bits()).exceeds_epsilon());
    assert!(Double::from_bits(f64::INFINITY.to_bits()).exceeds_epsilon());
    assert!(Double::from_bits(f64::NEG_INFINITY.to_bits()).exceeds_epsilon());
}

#[test]
fn a_sum_that_is_no_number_does_not_exceed_epsilon() {
    let nan = Double::from_bits(f64::NAN.to_bits());
    assert!(nan.is_nan());
    assert!(!nan.exceeds_epsilon());
    assert!(!Double::from_bits(1.0f64.to_bits()).is_nan());
    assert!(!Double::from_bits(f64::INFINITY.to_bits()).is_nan());
}

#[test]
fn exceeding_epsilon_agrees_with_the_comparison_of_doubles() {
    let samples = [
        0.0f64, 1e-300, 1e-17, 2.2e-16, 2.3e-16, 1e-15, 0.5, 1.0, 90.0, 1e300, -1e-17, -2.3e-16,
        -1.0, f64::MAX, f64::MIN, f64::MIN_POSITIVE,
    ];
    for sample in samples {
        assert_eq!(
            Double::from_bits(sample.to_bits()).exceeds_epsilon(),
            sample.abs() > f64::EPSILON
        );
    }
}
