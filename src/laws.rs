//! Laws that relate the codec's functions to one another.
use crate::classify::{category_of, numeric_category, FieldCategory, FieldDescriptor, TypeShape, UnsignedWidth};
use crate::dispatch::{
    decoded_field, decoded_number, decoded_numbers, encoded_field, fits, honest_read, honest_wire,
    FieldError, FieldValueView, ReadTokenView,
};
use crate::hashids::{
    decoded, lemma_lifted, lemma_token_unique, lifted, max_values, raw_token, read_back, single, token,
    Codec, CodecError,
};
use vstd::prelude::*;

verus! {

/// Decoding the token of a sequence gives back that sequence, in order;
/// so does reading it back from what `hash_ids` reads from the token.
pub proof fn lemma_round_trip(c: Codec, s: Seq<u64>)
    requires
        c.wf(),
        s.len() < max_values(),
    ensures
        decoded(c@, token(c@, s)) == Ok::<Seq<u64>, CodecError>(s),
        read_back(c@, token(c@, s), Some(lifted(s))) == Ok::<Seq<u64>, CodecError>(s),
{
    lemma_token_unique(&c, s, token(c@, s));
    lemma_lifted(s);
}

/// What `decode` accepts is always the sequence whose token the text is.
pub proof fn lemma_read_back_sound(c: Codec, text: Seq<char>, read: Option<Seq<u64>>)
    requires
        c.wf(),
        read_back(c@, text, read) is Ok,
    ensures
        decoded(c@, text) == read_back(c@, text, read),
{
    let t = read->Some_0;
    crate::hashids::lemma_lowered(t);
    let s = crate::hashids::lowered(t);
    lemma_lifted(s);
    lemma_token_unique(&c, s, text);
}

/// Decoding the token of one number as a single number gives that number.
pub proof fn lemma_single_round_trip(c: Codec, v: u64)
    requires
        c.wf(),
    ensures
        single(decoded(c@, token(c@, seq![v]))) == Ok::<u64, CodecError>(v),
        single(read_back(c@, token(c@, seq![v]), Some(lifted(seq![v])))) == Ok::<u64, CodecError>(v),
{
    lemma_round_trip(c, seq![v]);
}

/// Decoding as a single number the token of a sequence that holds other
/// than exactly one number fails with `ArityError`.
pub proof fn lemma_arity_mismatch(c: Codec, s: Seq<u64>)
    requires
        c.wf(),
        s.len() < max_values(),
        s.len() != 1,
    ensures
        single(decoded(c@, token(c@, s))) == Err::<u64, CodecError>(CodecError::ArityError),
        single(read_back(c@, token(c@, s), Some(lifted(s)))) == Err::<u64, CodecError>(
            CodecError::ArityError,
        ),
{
    lemma_round_trip(c, s);
}

/// Every token, the empty sequence's included, is non-empty and at least
/// the minimum length long.
pub proof fn lemma_min_length(c: Codec, s: Seq<u64>)
    requires
        c.wf(),
        s.len() < max_values(),
    ensures
        token(c@, s).len() >= c@.min_length,
        token(c@, s).len() > 0,
{
    c.lemma_laws();
    lemma_lifted(s);
}

/// The empty text is no token: decoding it fails with `DecodeError`,
/// whatever `hash_ids` read from it.
pub proof fn lemma_empty_text_refused(c: Codec, read: Option<Seq<u64>>)
    requires
        c.wf(),
    ensures
        decoded(c@, Seq::<char>::empty()) == Err::<Seq<u64>, CodecError>(CodecError::DecodeError),
        read_back(c@, Seq::<char>::empty(), read) == Err::<Seq<u64>, CodecError>(
            CodecError::DecodeError,
        ),
{
    c.lemma_laws();
    if exists|s: Seq<u64>| s.len() < max_values() && #[trigger] token(c@, s) == Seq::<char>::empty() {
        let s = choose|s: Seq<u64>| s.len() < max_values() && #[trigger] token(c@, s) == Seq::<char>::empty();
        lemma_min_length(c, s);
    }
    if read is Some {
        let t = read->Some_0;
        if 0 < t.len() <= max_values() {
            assert(raw_token(c@, t).len() > 0);
        }
    }
}

/// A text with a character outside the alphabet is no token: decoding it
/// fails with `DecodeError`, whatever `hash_ids` read from it.
pub proof fn lemma_foreign_char_rejected(c: Codec, text: Seq<char>, i: int, read: Option<Seq<u64>>)
    requires
        c.wf(),
        0 <= i < text.len(),
        !c@.alphabet.contains(text[i]),
    ensures
        decoded(c@, text) == Err::<Seq<u64>, CodecError>(CodecError::DecodeError),
        read_back(c@, text, read) == Err::<Seq<u64>, CodecError>(CodecError::DecodeError),
{
    c.lemma_laws();
    if exists|s: Seq<u64>| s.len() < max_values() && #[trigger] token(c@, s) == text {
        let s = choose|s: Seq<u64>| s.len() < max_values() && #[trigger] token(c@, s) == text;
        lemma_lifted(s);
        assert(c@.alphabet.contains(raw_token(c@, lifted(s))[i]));
    }
    if read is Some {
        let t = read->Some_0;
        if 0 < t.len() <= max_values() && raw_token(c@, t) == text {
            assert(c@.alphabet.contains(raw_token(c@, t)[i]));
        }
    }
}

/// Every character of a token is drawn from the alphabet.
pub proof fn lemma_alphabet_closure(c: Codec, s: Seq<u64>, i: int)
    requires
        c.wf(),
        s.len() < max_values(),
        0 <= i < token(c@, s).len(),
    ensures
        c@.alphabet.contains(token(c@, s)[i]),
{
    c.lemma_laws();
    lemma_lifted(s);
}

/// Two codecs with the same options give the same token for the same
/// sequence.
pub proof fn lemma_deterministic(c1: Codec, c2: Codec, s: Seq<u64>)
    requires
        c1.wf(),
        c2.wf(),
        c1@ == c2@,
    ensures
        token(c1@, s) == token(c2@, s),
{
}

/// Decoding honestly read tokens of numbers that fit their type gives
/// back those numbers, in order.
pub proof fn lemma_numbers_round_trip(c: Codec, w: UnsignedWidth, vs: Seq<u64>)
    requires
        c.wf(),
        forall|i: int| 0 <= i < vs.len() ==> fits(w, #[trigger] vs[i]),
    ensures
        decoded_numbers(c@, w, vs.map_values(|n: u64| honest_read(c@, n))) == Ok::<
            Seq<u64>,
            FieldError,
        >(vs),
    decreases vs.len(),
{
    let ts = vs.map_values(|n: u64| honest_read(c@, n));
    if vs.len() > 0 {
        assert(ts.drop_last() =~= vs.drop_last().map_values(|n: u64| honest_read(c@, n)));
        lemma_numbers_round_trip(c, w, vs.drop_last());
        lemma_single_round_trip(c, vs.last());
        assert(fits(w, vs[vs.len() - 1]));
        assert(decoded_number(c@, w, ts.last()) == Ok::<u64, FieldError>(vs.last()));
        assert(vs.drop_last().push(vs.last()) =~= vs);
    } else {
        assert(ts =~= Seq::<ReadTokenView>::empty());
        assert(vs =~= Seq::<u64>::empty());
    }
}

/// A field value that encodes decodes back to itself under the same
/// category, when each of its tokens is read honestly; an absent value
/// goes to `null` and back.
pub proof fn lemma_field_round_trip<P>(c: Codec, cat: FieldCategory, v: FieldValueView<P>)
    requires
        c.wf(),
        encoded_field(c@, cat, v) is Ok,
    ensures
        decoded_field(c@, cat, honest_wire(c@, v)) == Ok::<FieldValueView<P>, FieldError>(v),
{
    match (cat, v) {
        (FieldCategory::Numeric(w), FieldValueView::Number(n)) => {
            lemma_single_round_trip(c, n);
        },
        (FieldCategory::OptionalNumeric(w), FieldValueView::MaybeNumber(Some(n))) => {
            lemma_single_round_trip(c, n);
        },
        (FieldCategory::SequenceOfNumeric(w), FieldValueView::Numbers(vs)) => {
            lemma_numbers_round_trip(c, w, vs);
        },
        (
            FieldCategory::OptionalSequenceOfNumeric(w),
            FieldValueView::MaybeNumbers(Some(vs)),
        ) => {
            lemma_numbers_round_trip(c, w, vs);
        },
        _ => {},
    }
}

/// A marked field whose type is a `Vec` of an unsigned integer type is
/// classified as a sequence of numbers of that type.
pub proof fn lemma_sequence_classifies(f: FieldDescriptor, w: UnsignedWidth)
    requires
        f.hashed,
        f.shape == TypeShape::Sequence(Box::new(TypeShape::Unsigned(w))),
    ensures
        category_of(f) == Some(FieldCategory::SequenceOfNumeric(w)),
{
}

/// A marked field of any type outside the four numeric shapes, such as a
/// float, has no category: classifying it fails.
pub proof fn lemma_other_type_refused(f: FieldDescriptor, name: String)
    requires
        f.hashed,
        f.shape == TypeShape::Other(name),
    ensures
        category_of(f) is None,
        numeric_category(f.shape) is None,
{
}

} // verus!
