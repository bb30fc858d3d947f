use serde_hash::classify::{FieldCategory, FieldDescriptor, TypeShape, UnsignedWidth};
use serde_hash::dispatch::{FieldValue, ReadToken, WireRead, WireValue};
use serde_hash::hashids::{get_hash_options, Codec, HashOptionsSlot, SerdeHashOptions};
use serde_hash::record::RecordSchema;
use serde_json::Value;

#[derive(Debug, PartialEq)]
struct TestData {
    id: u64,
    name: String,
    age: u8,
}

fn schema() -> RecordSchema {
    let fields = vec![
        FieldDescriptor {
            name: "id".to_string(),
            shape: TypeShape::Unsigned(UnsignedWidth::U64),
            hashed: true,
        },
        FieldDescriptor { name: "name".to_string(), shape: TypeShape::Other("String".to_string()), hashed: false },
        FieldDescriptor { name: "age".to_string(), shape: TypeShape::Unsigned(UnsignedWidth::U8), hashed: false },
    ];
    RecordSchema::new(&fields).unwrap()
}

fn configured_codec() -> Codec {
    let mut slot = HashOptionsSlot::new();
    SerdeHashOptions::new()
        .with_salt("hello world")
        .with_min_length(10)
        .with_alphabet("abcdefghijklmnopqrstuvwxyzABCDEFGHIJKLMNOPQRSTUVWXYZ1234567890")
        .build(&mut slot);
    get_hash_options(&mut slot).codec().unwrap()
}

fn to_json(codec: &Codec, data: &TestData) -> String {
    let values = vec![
        FieldValue::Number(data.id),
        FieldValue::Passthrough(Value::String(data.name.clone())),
        FieldValue::Passthrough(Value::from(data.age)),
    ];
    let wire = schema().encode_record(codec, values).unwrap();
    let mut map = serde_json::Map::new();
    for (key, w) in ["id", "name", "age"].iter().zip(wire) {
        let v = match w {
            WireValue::Token(t) => Value::String(t),
            WireValue::Tokens(ts) => Value::Array(ts.into_iter().map(Value::String).collect()),
            WireValue::Null => Value::Null,
            WireValue::Passthrough(v) => v,
        };
        map.insert(key.to_string(), v);
    }
    Value::Object(map).to_string()
}

fn from_json(codec: &Codec, text: &str) -> TestData {
    let s = schema();
    let value: Value = serde_json::from_str(text).unwrap();
    let mut entries = Vec::new();
    for (key, v) in value.as_object().unwrap() {
        let wire = match (s.key_category(key), v) {
            (Some(FieldCategory::Passthrough), _) | (None, _) => WireRead::Passthrough(v.clone()),
            (_, Value::String(t)) => {
                let read = codec.hash_ids().decode(t).ok();
                WireRead::Token(ReadToken { text: t.clone(), read })
            }
            (_, Value::Null) => WireRead::Null,
            (_, other) => WireRead::Passthrough(other.clone()),
        };
        entries.push((key.clone(), wire));
    }
    let mut fields = s.decode_record(codec, entries).unwrap().into_iter();
    let id = match fields.next() {
        Some(FieldValue::Number(n)) => n,
        _ => panic!("id did not decode"),
    };
    let name = match fields.next() {
        Some(FieldValue::Passthrough(Value::String(n))) => n,
        _ => panic!("name missing"),
    };
    let age = match fields.next() {
        Some(FieldValue::Passthrough(v)) => v.as_u64().unwrap() as u8,
        _ => panic!("age missing"),
    };
    TestData { id, name, age }
}

#[test]
fn test_basic() {
    let codec = configured_codec();
    let data = TestData { id: 158674, name: "Dan Smith".to_string(), age: 47 };

    let json_string = to_json(&codec, &data);
    // {"id":"qKknODM7Ej","name":"Dan Smith","age":47}
    assert!(json_string.contains("qKknODM7Ej"));
}

#[test]
fn test_deserialization() {
    let codec = configured_codec();
    let data = TestData { id: 158674, name: "Dan Smith".to_string(), age: 47 };

    let json_string = to_json(&codec, &data);
    let deserialized = from_json(&codec, &json_string);
    assert_eq!(deserialized, data)
}
