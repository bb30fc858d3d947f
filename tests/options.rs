use serde_hash::hashids::{get_hash_options, HashOptionsSlot, SerdeHashOptions, DEFAULT_ALPHABET, DEFAULT_MIN_LENGTH};
use serde_hash::numeric::HashNumeric;
use serde_hash::salt::generate_salt;

#[test]
fn generated_salt_is_alphanumeric_of_fixed_length() {
    let s = generate_salt();
    assert_eq!(s.chars().count(), 32);
    assert!(s.chars().all(|c| c.is_ascii_alphanumeric()));
    assert_ne!(generate_salt(), s);
}

#[test]
fn new_options_are_the_defaults() {
    let o = SerdeHashOptions::new();
    assert_eq!(o.min_length, DEFAULT_MIN_LENGTH);
    assert_eq!(o.min_length, 8);
    assert_eq!(o.alphabet, DEFAULT_ALPHABET);
    assert_eq!(o.salt.chars().count(), 32);
}

#[test]
fn builders_set_one_field_each() {
    let o = SerdeHashOptions::new()
        .with_salt("hello world")
        .with_min_length(10)
        .with_alphabet("abcdefghijklmnop");
    assert_eq!(o.salt, "hello world");
    assert_eq!(o.min_length, 10);
    assert_eq!(o.alphabet, "abcdefghijklmnop");
}

#[test]
fn first_build_wins() {
    let mut slot = HashOptionsSlot::new();
    assert!(!slot.is_configured());
    SerdeHashOptions::new().with_salt("first").build(&mut slot);
    assert!(slot.is_configured());
    SerdeHashOptions::new().with_salt("second").with_min_length(3).build(&mut slot);
    let o = get_hash_options(&mut slot);
    assert_eq!(o.salt, "first");
    assert_eq!(o.min_length, 8);
}

#[test]
fn unconfigured_slot_gets_stable_defaults() {
    let mut slot = HashOptionsSlot::new();
    let salt = get_hash_options(&mut slot).salt.clone();
    assert_eq!(salt.chars().count(), 32);
    assert_eq!(get_hash_options(&mut slot).salt, salt);
    SerdeHashOptions::new().with_salt("late").build(&mut slot);
    assert_eq!(get_hash_options(&mut slot).salt, salt);
}

#[test]
fn numeric_conversions_never_truncate() {
    assert_eq!(47u8.to_u64(), Some(47));
    assert_eq!(u64::MAX.to_u64(), Some(u64::MAX));
    assert_eq!((u64::MAX as u128).to_u64(), Some(u64::MAX));
    assert_eq!((u64::MAX as u128 + 1).to_u64(), None);
    assert_eq!(<u8 as HashNumeric>::from_u64(255), Some(255u8));
    assert_eq!(<u8 as HashNumeric>::from_u64(256), None);
    assert_eq!(<u16 as HashNumeric>::from_u64(70000), None);
    assert_eq!(<u32 as HashNumeric>::from_u64(1 << 32), None);
    assert_eq!(<u128 as HashNumeric>::from_u64(u64::MAX), Some(u64::MAX as u128));
    assert_eq!(<usize as HashNumeric>::from_u64(12), Some(12usize));
}
