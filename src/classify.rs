//! Which transform a field of a record gets, from its declared type.
use vstd::prelude::*;

verus! {

/// The unsigned integer types that a hashed field may hold.
#[derive(Debug, Clone, Copy, PartialEq, Eq, Structural)]
pub enum UnsignedWidth {
    U8,
    U16,
    U32,
    U64,
    U128,
    Usize,
}

/// The declared type of a field, as far as classification reads it.
#[derive(Debug)]
pub enum TypeShape {
    /// An unsigned integer type.
    Unsigned(UnsignedWidth),
    /// `Vec<T>`.
    Sequence(Box<TypeShape>),
    /// `Option<T>`.
    Optional(Box<TypeShape>),
    /// Any other type, by its name.
    Other(String),
}

/// The transform that a field gets.
#[derive(Debug, Clone, Copy, PartialEq, Eq, Structural)]
pub enum FieldCategory {
    Numeric(UnsignedWidth),
    SequenceOfNumeric(UnsignedWidth),
    OptionalNumeric(UnsignedWidth),
    OptionalSequenceOfNumeric(UnsignedWidth),
    Passthrough,
}

/// A field of a record: its name, its declared type and whether it is
/// marked for hashing.
#[derive(Debug)]
pub struct FieldDescriptor {
    pub name: String,
    pub shape: TypeShape,
    pub hashed: bool,
}

/// A field marked for hashing whose type is none of the four numeric
/// shapes.
#[derive(Debug)]
pub struct ClassificationError {
    pub field: String,
    pub shape: TypeShape,
}

/// The numeric category of a type: an unsigned integer, a `Vec` of one, an
/// `Option` of one, or an `Option` of a `Vec` of one.
pub open spec fn numeric_category(shape: TypeShape) -> Option<FieldCategory> {
    match shape {
        TypeShape::Unsigned(w) => Some(FieldCategory::Numeric(w)),
        TypeShape::Sequence(inner) => match *inner {
            TypeShape::Unsigned(w) => Some(FieldCategory::SequenceOfNumeric(w)),
            _ => None,
        },
        TypeShape::Optional(inner) => match *inner {
            TypeShape::Unsigned(w) => Some(FieldCategory::OptionalNumeric(w)),
            TypeShape::Sequence(inner2) => match *inner2 {
                TypeShape::Unsigned(w) => Some(FieldCategory::OptionalSequenceOfNumeric(w)),
                _ => None,
            },
            _ => None,
        },
        TypeShape::Other(_) => None,
    }
}

/// The category of a field: `Passthrough` when it is not marked, else the
/// numeric category of its type, if it has one.
pub open spec fn category_of(field: FieldDescriptor) -> Option<FieldCategory> {
    if field.hashed {
        numeric_category(field.shape)
    } else {
        Some(FieldCategory::Passthrough)
    }
}

/// Whether `e` names `field` and its type.
pub open spec fn names_field(e: ClassificationError, field: FieldDescriptor) -> bool {
    e.field@ == field.name@ && e.shape == field.shape
}

/// A copy of `shape`.
pub fn copy_shape(shape: &TypeShape) -> (r: TypeShape)
    ensures
        r == *shape,
    decreases shape,
{
    match shape {
        TypeShape::Unsigned(w) => TypeShape::Unsigned(*w),
        TypeShape::Sequence(inner) => TypeShape::Sequence(Box::new(copy_shape(inner))),
        TypeShape::Optional(inner) => TypeShape::Optional(Box::new(copy_shape(inner))),
        TypeShape::Other(name) => TypeShape::Other(name.clone()),
    }
}

/// The numeric category of a type, if it has one.
pub fn numeric_category_of(shape: &TypeShape) -> (r: Option<FieldCategory>)
    ensures
        r == numeric_category(*shape),
{
    match shape {
        TypeShape::Unsigned(w) => Some(FieldCategory::Numeric(*w)),
        TypeShape::Sequence(inner) => match &**inner {
            TypeShape::Unsigned(w) => Some(FieldCategory::SequenceOfNumeric(*w)),
            _ => None,
        },
        TypeShape::Optional(inner) => match &**inner {
            TypeShape::Unsigned(w) => Some(FieldCategory::OptionalNumeric(*w)),
            TypeShape::Sequence(inner2) => match &**inner2 {
                TypeShape::Unsigned(w) => Some(FieldCategory::OptionalSequenceOfNumeric(*w)),
                _ => None,
            },
            _ => None,
        },
        TypeShape::Other(_) => None,
    }
}

/// Classifies one field; a marked field of another type is an error that
/// names the field and its type.
pub fn classify(field: &FieldDescriptor) -> (r: Result<FieldCategory, ClassificationError>)
    ensures
        match category_of(*field) {
            Some(c) => r == Ok::<FieldCategory, ClassificationError>(c),
            None => r matches Err(e) && names_field(e, *field),
        },
{
    if !field.hashed {
        return Ok(FieldCategory::Passthrough);
    }
    match numeric_category_of(&field.shape) {
        Some(c) => Ok(c),
        None => Err(ClassificationError { field: field.name.clone(), shape: copy_shape(&field.shape) }),
    }
}

/// Classifies every field of a record, in order; fails on the first marked
/// field that has no numeric category.
pub fn classify_fields(fields: &Vec<FieldDescriptor>) -> (r: Result<Vec<FieldCategory>, ClassificationError>)
    ensures
        match r {
            Ok(cs) => cs@.len() == fields@.len() && forall|i: int|
                0 <= i < fields@.len() ==> category_of(#[trigger] fields@[i]) == Some(cs@[i]),
            Err(e) => exists|i: int|
                0 <= i < fields@.len() && category_of(#[trigger] fields@[i]) is None
                    && names_field(e, fields@[i]) && forall|j: int|
                    0 <= j < i ==> category_of(#[trigger] fields@[j]) is Some,
        },
{
    let mut cs: Vec<FieldCategory> = Vec::new();
    let mut i: usize = 0;
    while i < fields.len()
        invariant
            i <= fields@.len(),
            cs@.len() == i,
            forall|j: int| 0 <= j < i ==> category_of(#[trigger] fields@[j]) == Some(cs@[j]),
        decreases fields@.len() - i,
    {
        match classify(&fields[i]) {
            Ok(c) => cs.push(c),
            Err(e) => {
                assert(forall|j: int| 0 <= j < i ==> category_of(#[trigger] fields@[j]) is Some);
                return Err(e);
            },
        }
        i = i + 1;
    }
    Ok(cs)
}

} // verus!
