use serde_hash::classify::{FieldCategory, FieldDescriptor, TypeShape, UnsignedWidth};
use serde_hash::dispatch::{FieldError, FieldValue, ReadToken, WireRead, WireValue};
use serde_hash::hashids::{encode_single, Codec, CodecError};
use serde_hash::record::{RecordError, RecordSchema};

fn codec() -> Codec {
    Codec::new("records", 6, "abcdefghijklmnopqrstuvwxyzABCDEFGHIJKLMNOPQRSTUVWXYZ1234567890").unwrap()
}

fn read_token(c: &Codec, text: String) -> ReadToken {
    let read = c.hash_ids().decode(&text).ok();
    ReadToken { text, read }
}

fn received<P>(c: &Codec, w: WireValue<P>) -> WireRead<P> {
    match w {
        WireValue::Token(t) => WireRead::Token(read_token(c, t)),
        WireValue::Tokens(ts) => WireRead::Tokens(ts.into_iter().map(|t| read_token(c, t)).collect()),
        WireValue::Null => WireRead::Null,
        WireValue::Passthrough(p) => WireRead::Passthrough(p),
    }
}

fn field(name: &str, shape: TypeShape, hashed: bool) -> FieldDescriptor {
    FieldDescriptor { name: name.to_string(), shape, hashed }
}

fn schema() -> RecordSchema {
    RecordSchema::new(&vec![
        field("id", TypeShape::Unsigned(UnsignedWidth::U64), true),
        field("name", TypeShape::Other("String".to_string()), false),
        field("tags", TypeShape::Sequence(Box::new(TypeShape::Unsigned(UnsignedWidth::U8))), true),
        field("parent", TypeShape::Optional(Box::new(TypeShape::Unsigned(UnsignedWidth::U32))), true),
    ])
    .unwrap()
}

fn entry(c: &Codec, key: &str, w: WireValue<&'static str>) -> (String, WireRead<&'static str>) {
    (key.to_string(), received(c, w))
}

#[test]
fn schema_refuses_a_marked_float() {
    let r = RecordSchema::new(&vec![
        field("id", TypeShape::Unsigned(UnsignedWidth::U64), true),
        field("score", TypeShape::Other("f64".to_string()), true),
    ]);
    assert_eq!(r.err().unwrap().field, "score");
}

#[test]
fn schema_reports_categories_by_key() {
    let s = schema();
    assert_eq!(s.len(), 4);
    assert_eq!(s.key_category(&"tags".to_string()), Some(FieldCategory::SequenceOfNumeric(UnsignedWidth::U8)));
    assert_eq!(s.key_category(&"name".to_string()), Some(FieldCategory::Passthrough));
    assert_eq!(s.key_category(&"unknown".to_string()), None);
}

#[test]
fn record_round_trips_in_any_entry_order() {
    let c = codec();
    let s = schema();
    let wire = s
        .encode_record(
            &c,
            vec![
                FieldValue::Number(158674),
                FieldValue::Passthrough("Dan Smith"),
                FieldValue::Numbers(vec![1, 2, 3]),
                FieldValue::MaybeNumber(None),
            ],
        )
        .unwrap();
    let names = ["id", "name", "tags", "parent"];
    let mut entries: Vec<(String, WireRead<&'static str>)> =
        names.iter().zip(wire).map(|(k, w)| (k.to_string(), received(&c, w))).collect();
    entries.reverse();
    entries.insert(1, entry(&c, "extra", WireValue::Null));
    let back = s.decode_record(&c, entries).unwrap();
    assert!(matches!(back[0], FieldValue::Number(158674)));
    assert!(matches!(back[1], FieldValue::Passthrough("Dan Smith")));
    assert!(matches!(&back[2], FieldValue::Numbers(v) if v == &vec![1, 2, 3]));
    assert!(matches!(back[3], FieldValue::MaybeNumber(None)));
}

#[test]
fn missing_field_is_reported() {
    let c = codec();
    let s = schema();
    let entries = vec![
        entry(&c, "id", WireValue::Token(encode_single(&c, 1))),
        entry(&c, "name", WireValue::Passthrough("x")),
        entry(&c, "tags", WireValue::Tokens(vec![])),
    ];
    match s.decode_record(&c, entries) {
        Err(RecordError::MissingField(n)) => assert_eq!(n, "parent"),
        other => panic!("expected a missing field, got {:?}", other.err()),
    }
}

#[test]
fn duplicate_field_is_reported() {
    let c = codec();
    let s = schema();
    let entries = vec![
        entry(&c, "id", WireValue::Token(encode_single(&c, 1))),
        entry(&c, "name", WireValue::Passthrough("x")),
        entry(&c, "id", WireValue::Token(encode_single(&c, 2))),
        entry(&c, "tags", WireValue::Tokens(vec![])),
        entry(&c, "parent", WireValue::Null),
    ];
    match s.decode_record(&c, entries) {
        Err(RecordError::DuplicateField(n)) => assert_eq!(n, "id"),
        other => panic!("expected a duplicate field, got {:?}", other.err()),
    }
}

#[test]
fn bad_token_fails_its_field() {
    let c = codec();
    let s = schema();
    let entries = vec![
        entry(&c, "id", WireValue::Token("!!!".to_string())),
        entry(&c, "name", WireValue::Passthrough("x")),
        entry(&c, "tags", WireValue::Tokens(vec![])),
        entry(&c, "parent", WireValue::Null),
    ];
    match s.decode_record(&c, entries) {
        Err(RecordError::Field(n, e)) => {
            assert_eq!(n, "id");
            assert_eq!(e, FieldError::Codec(CodecError::DecodeError));
        }
        other => panic!("expected a field error, got {:?}", other.err()),
    }
}

#[test]
fn wrong_number_of_values_is_refused() {
    let c = codec();
    let r = schema().encode_record(&c, vec![FieldValue::<&str>::Number(1)]);
    assert!(matches!(r, Err(RecordError::FieldCount)));
}

#[test]
fn value_that_does_not_fit_fails_its_field() {
    let c = codec();
    let r = schema().encode_record(
        &c,
        vec![
            FieldValue::Number(1),
            FieldValue::Passthrough("x"),
            FieldValue::Numbers(vec![1, 256]),
            FieldValue::MaybeNumber(Some(3)),
        ],
    );
    match r {
        Err(RecordError::Field(n, e)) => {
            assert_eq!(n, "tags");
            assert_eq!(e, FieldError::OutOfRange);
        }
        _ => panic!("expected a field error"),
    }
}
