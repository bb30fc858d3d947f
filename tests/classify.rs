use serde_hash::classify::{classify, classify_fields, FieldCategory, FieldDescriptor, TypeShape, UnsignedWidth};

fn field(name: &str, shape: TypeShape, hashed: bool) -> FieldDescriptor {
    FieldDescriptor { name: name.to_string(), shape, hashed }
}

fn vec_of(shape: TypeShape) -> TypeShape {
    TypeShape::Sequence(Box::new(shape))
}

fn option_of(shape: TypeShape) -> TypeShape {
    TypeShape::Optional(Box::new(shape))
}

#[test]
fn sequence_of_unsigned_is_sequence_of_numeric() {
    let f = field("ids", vec_of(TypeShape::Unsigned(UnsignedWidth::U32)), true);
    assert_eq!(classify(&f).unwrap(), FieldCategory::SequenceOfNumeric(UnsignedWidth::U32));
}

#[test]
fn each_numeric_shape_has_its_category() {
    let w = UnsignedWidth::U8;
    assert_eq!(classify(&field("a", TypeShape::Unsigned(w), true)).unwrap(), FieldCategory::Numeric(w));
    assert_eq!(
        classify(&field("b", option_of(TypeShape::Unsigned(w)), true)).unwrap(),
        FieldCategory::OptionalNumeric(w)
    );
    assert_eq!(
        classify(&field("c", option_of(vec_of(TypeShape::Unsigned(w))), true)).unwrap(),
        FieldCategory::OptionalSequenceOfNumeric(w)
    );
}

#[test]
fn marked_float_is_a_classification_error() {
    let f = field("score", TypeShape::Other("f64".to_string()), true);
    let e = classify(&f).unwrap_err();
    assert_eq!(e.field, "score");
    assert!(matches!(e.shape, TypeShape::Other(ref n) if n == "f64"));
}

#[test]
fn nested_sequences_are_refused() {
    let f = field("grid", vec_of(vec_of(TypeShape::Unsigned(UnsignedWidth::U64))), true);
    assert!(classify(&f).is_err());
    let g = field("maybe", option_of(option_of(TypeShape::Unsigned(UnsignedWidth::U64))), true);
    assert!(classify(&g).is_err());
}

#[test]
fn unmarked_fields_pass_through() {
    let f = field("age", TypeShape::Unsigned(UnsignedWidth::U8), false);
    assert_eq!(classify(&f).unwrap(), FieldCategory::Passthrough);
    let g = field("name", TypeShape::Other("String".to_string()), false);
    assert_eq!(classify(&g).unwrap(), FieldCategory::Passthrough);
}

#[test]
fn a_record_is_classified_field_by_field() {
    let fields = vec![
        field("id", TypeShape::Unsigned(UnsignedWidth::U64), true),
        field("name", TypeShape::Other("String".to_string()), false),
        field("vec", vec_of(TypeShape::Unsigned(UnsignedWidth::U8)), true),
    ];
    assert_eq!(
        classify_fields(&fields).unwrap(),
        vec![
            FieldCategory::Numeric(UnsignedWidth::U64),
            FieldCategory::Passthrough,
            FieldCategory::SequenceOfNumeric(UnsignedWidth::U8),
        ]
    );
}

#[test]
fn a_record_fails_on_its_first_bad_field() {
    let fields = vec![
        field("id", TypeShape::Unsigned(UnsignedWidth::U64), true),
        field("ratio", TypeShape::Other("f32".to_string()), true),
        field("label", TypeShape::Other("String".to_string()), true),
    ];
    assert_eq!(classify_fields(&fields).unwrap_err().field, "ratio");
}
