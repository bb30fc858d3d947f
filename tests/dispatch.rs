use serde_hash::classify::{FieldCategory, UnsignedWidth};
use serde_hash::dispatch::{decode_field, encode_field, FieldError, FieldValue, ReadToken, WireRead, WireValue};
use serde_hash::hashids::{encode, encode_single, Codec, CodecError};

fn codec() -> Codec {
    Codec::new("hello world", 10, "abcdefghijklmnopqrstuvwxyzABCDEFGHIJKLMNOPQRSTUVWXYZ1234567890").unwrap()
}

fn read_token(c: &Codec, text: String) -> ReadToken {
    let read = c.hash_ids().decode(&text).ok();
    ReadToken { text, read }
}

fn received<P>(c: &Codec, w: WireValue<P>) -> WireRead<P> {
    match w {
        WireValue::Token(t) => WireRead::Token(read_token(c, t)),
        WireValue::Tokens(ts) => WireRead::Tokens(ts.into_iter().map(|t| read_token(c, t)).collect()),
        WireValue::Null => WireRead::Null,
        WireValue::Passthrough(p) => WireRead::Passthrough(p),
    }
}

fn tokens(w: &WireValue<()>) -> Vec<String> {
    match w {
        WireValue::Tokens(ts) => ts.clone(),
        _ => panic!("not a list of tokens"),
    }
}

#[test]
fn numeric_field_becomes_its_token() {
    let c = codec();
    match encode_field::<()>(&c, FieldCategory::Numeric(UnsignedWidth::U64), FieldValue::Number(158674)) {
        Ok(WireValue::Token(t)) => assert_eq!(t, "qKknODM7Ej"),
        _ => panic!("expected a token"),
    }
}

#[test]
fn sequence_field_keeps_order_and_count() {
    let c = codec();
    let cat = FieldCategory::SequenceOfNumeric(UnsignedWidth::U8);
    let wire = encode_field::<()>(&c, cat, FieldValue::Numbers(vec![1, 2, 3, 255])).unwrap();
    let ts = tokens(&wire);
    assert_eq!(ts.len(), 4);
    assert_eq!(ts[0], encode_single(&c, 1));
    assert_eq!(ts[3], encode_single(&c, 255));
    match decode_field::<()>(&c, cat, received(&c, wire)).unwrap() {
        FieldValue::Numbers(vs) => assert_eq!(vs, vec![1, 2, 3, 255]),
        _ => panic!("expected numbers"),
    }
}

#[test]
fn absent_optional_number_is_null_and_back() {
    let c = codec();
    let cat = FieldCategory::OptionalNumeric(UnsignedWidth::U8);
    let wire = encode_field::<()>(&c, cat, FieldValue::MaybeNumber(None)).unwrap();
    assert!(matches!(wire, WireValue::Null));
    assert!(matches!(decode_field::<()>(&c, cat, WireRead::Null), Ok(FieldValue::MaybeNumber(None))));
}

#[test]
fn present_optional_number_round_trips() {
    let c = codec();
    let cat = FieldCategory::OptionalNumeric(UnsignedWidth::U8);
    let wire = encode_field::<()>(&c, cat, FieldValue::MaybeNumber(Some(47))).unwrap();
    assert!(matches!(decode_field::<()>(&c, cat, received(&c, wire)), Ok(FieldValue::MaybeNumber(Some(47)))));
}

#[test]
fn optional_sequence_round_trips() {
    let c = codec();
    let cat = FieldCategory::OptionalSequenceOfNumeric(UnsignedWidth::U16);
    let wire = encode_field::<()>(&c, cat, FieldValue::MaybeNumbers(None)).unwrap();
    assert!(matches!(wire, WireValue::Null));
    let wire = encode_field::<()>(&c, cat, FieldValue::MaybeNumbers(Some(vec![7, 65535]))).unwrap();
    match decode_field::<()>(&c, cat, received(&c, wire)).unwrap() {
        FieldValue::MaybeNumbers(Some(vs)) => assert_eq!(vs, vec![7, 65535]),
        _ => panic!("expected numbers"),
    }
}

#[test]
fn passthrough_is_handed_on_unchanged() {
    let c = codec();
    match encode_field(&c, FieldCategory::Passthrough, FieldValue::Passthrough("Dan Smith")) {
        Ok(WireValue::Passthrough(p)) => assert_eq!(p, "Dan Smith"),
        _ => panic!("expected the value unchanged"),
    }
    match decode_field(&c, FieldCategory::Passthrough, WireRead::Passthrough(47u8)) {
        Ok(FieldValue::Passthrough(p)) => assert_eq!(p, 47),
        _ => panic!("expected the value unchanged"),
    }
}

#[test]
fn too_wide_numbers_are_out_of_range() {
    let c = codec();
    let cat = FieldCategory::Numeric(UnsignedWidth::U8);
    assert_eq!(
        encode_field::<()>(&c, cat, FieldValue::Number(256)).err(),
        Some(FieldError::OutOfRange)
    );
    let wide = WireValue::Token(encode_single(&c, 300));
    assert_eq!(decode_field::<()>(&c, cat, received(&c, wide)).err(), Some(FieldError::OutOfRange));
    let seq = FieldCategory::SequenceOfNumeric(UnsignedWidth::U16);
    assert_eq!(
        encode_field::<()>(&c, seq, FieldValue::Numbers(vec![1, 70000])).err(),
        Some(FieldError::OutOfRange)
    );
}

#[test]
fn one_bad_element_fails_the_sequence() {
    let c = codec();
    let cat = FieldCategory::SequenceOfNumeric(UnsignedWidth::U64);
    let wire = WireValue::Tokens(vec![encode_single(&c, 1), "!!!".to_string(), encode(&c, &[1, 2])]);
    assert_eq!(
        decode_field::<()>(&c, cat, received(&c, wire)).err(),
        Some(FieldError::Codec(CodecError::DecodeError))
    );
    let wire = WireValue::Tokens(vec![encode_single(&c, 1), encode(&c, &[1, 2])]);
    assert_eq!(
        decode_field::<()>(&c, cat, received(&c, wire)).err(),
        Some(FieldError::Codec(CodecError::ArityError))
    );
}

#[test]
fn mismatched_shapes_are_refused() {
    let c = codec();
    assert_eq!(
        encode_field::<()>(&c, FieldCategory::Numeric(UnsignedWidth::U64), FieldValue::Numbers(vec![1])).err(),
        Some(FieldError::ShapeMismatch)
    );
    assert_eq!(
        decode_field::<()>(&c, FieldCategory::Numeric(UnsignedWidth::U64), WireRead::Null).err(),
        Some(FieldError::ShapeMismatch)
    );
}
