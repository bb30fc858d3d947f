//! The transforms that a serializer applies to a field, by its category.
use crate::classify::{FieldCategory, UnsignedWidth};
use crate::hashids::{
    decode_single, encode_single, lifted, read_back, read_view, single, token, Codec, CodecError,
    CodecView,
};
use vstd::prelude::*;

verus! {

/// The value of a field as a record holds it.
pub enum FieldValue<P> {
    Number(u64),
    Numbers(Vec<u64>),
    MaybeNumber(Option<u64>),
    MaybeNumbers(Option<Vec<u64>>),
    Passthrough(P),
}

/// A field value, with sequences as `Seq`.
pub ghost enum FieldValueView<P> {
    Number(u64),
    Numbers(Seq<u64>),
    MaybeNumber(Option<u64>),
    MaybeNumbers(Option<Seq<u64>>),
    Passthrough(P),
}

impl<P> View for FieldValue<P> {
    type V = FieldValueView<P>;

    open spec fn view(&self) -> FieldValueView<P> {
        match self {
            FieldValue::Number(n) => FieldValueView::Number(*n),
            FieldValue::Numbers(vs) => FieldValueView::Numbers(vs@),
            FieldValue::MaybeNumber(n) => FieldValueView::MaybeNumber(*n),
            FieldValue::MaybeNumbers(None) => FieldValueView::MaybeNumbers(None),
            FieldValue::MaybeNumbers(Some(vs)) => FieldValueView::MaybeNumbers(Some(vs@)),
            FieldValue::Passthrough(p) => FieldValueView::Passthrough(*p),
        }
    }
}

/// The value of a field as the wire holds it: a token, a list of tokens,
/// `null`, or the value the host serializes unchanged.
pub enum WireValue<P> {
    Token(String),
    Tokens(Vec<String>),
    Null,
    Passthrough(P),
}

/// A wire value, with strings as `Seq<char>`.
pub ghost enum WireView<P> {
    Token(Seq<char>),
    Tokens(Seq<Seq<char>>),
    Null,
    Passthrough(P),
}

/// The views of a sequence of strings.
pub open spec fn views(ts: Seq<String>) -> Seq<Seq<char>> {
    ts.map_values(|t: String| t@)
}

impl<P> View for WireValue<P> {
    type V = WireView<P>;

    open spec fn view(&self) -> WireView<P> {
        match self {
            WireValue::Token(t) => WireView::Token(t@),
            WireValue::Tokens(ts) => WireView::Tokens(views(ts@)),
            WireValue::Null => WireView::Null,
            WireValue::Passthrough(p) => WireView::Passthrough(*p),
        }
    }
}

/// A token as a host received it, with the numbers that `hash_ids` read
/// from it, if it read any.
pub struct ReadToken {
    pub text: String,
    pub read: Option<Vec<u64>>,
}

/// A read token, as views.
pub ghost struct ReadTokenView {
    pub text: Seq<char>,
    pub read: Option<Seq<u64>>,
}

impl View for ReadToken {
    type V = ReadTokenView;

    open spec fn view(&self) -> ReadTokenView {
        ReadTokenView { text: self.text@, read: read_view(self.read) }
    }
}

/// The value of a field as a host received it from the wire, each token
/// with what `hash_ids` read from it.
pub enum WireRead<P> {
    Token(ReadToken),
    Tokens(Vec<ReadToken>),
    Null,
    Passthrough(P),
}

/// A received wire value, as views.
pub ghost enum WireReadView<P> {
    Token(ReadTokenView),
    Tokens(Seq<ReadTokenView>),
    Null,
    Passthrough(P),
}

impl<P> View for WireRead<P> {
    type V = WireReadView<P>;

    open spec fn view(&self) -> WireReadView<P> {
        match self {
            WireRead::Token(t) => WireReadView::Token(t@),
            WireRead::Tokens(ts) => WireReadView::Tokens(ts@.map_values(|t: ReadToken| t@)),
            WireRead::Null => WireReadView::Null,
            WireRead::Passthrough(p) => WireReadView::Passthrough(*p),
        }
    }
}

/// The token of `n` with what `hash_ids` reads from it.
pub open spec fn honest_read(c: CodecView, n: u64) -> ReadTokenView {
    ReadTokenView { text: token(c, seq![n]), read: Some(lifted(seq![n])) }
}

/// The wire value of `v` as a host receives it, each token read honestly.
pub open spec fn honest_wire<P>(c: CodecView, v: FieldValueView<P>) -> WireReadView<P> {
    match v {
        FieldValueView::Number(n) => WireReadView::Token(honest_read(c, n)),
        FieldValueView::Numbers(vs) => WireReadView::Tokens(vs.map_values(|n: u64| honest_read(c, n))),
        FieldValueView::MaybeNumber(None) => WireReadView::Null,
        FieldValueView::MaybeNumber(Some(n)) => WireReadView::Token(honest_read(c, n)),
        FieldValueView::MaybeNumbers(None) => WireReadView::Null,
        FieldValueView::MaybeNumbers(Some(vs)) => WireReadView::Tokens(
            vs.map_values(|n: u64| honest_read(c, n)),
        ),
        FieldValueView::Passthrough(p) => WireReadView::Passthrough(p),
    }
}

/// Why a field could not be transformed.
#[derive(Debug, Clone, Copy, PartialEq, Eq, Structural)]
pub enum FieldError {
    /// A token did not decode to one number.
    Codec(CodecError),
    /// A number does not fit the field's integer type.
    OutOfRange,
    /// The value does not have the shape of the field's category.
    ShapeMismatch,
}

/// The largest value of an integer type, within the codec's 64 bits.
pub open spec fn width_max(w: UnsignedWidth) -> nat {
    match w {
        UnsignedWidth::U8 => u8::MAX as nat,
        UnsignedWidth::U16 => u16::MAX as nat,
        UnsignedWidth::U32 => u32::MAX as nat,
        UnsignedWidth::U64 => u64::MAX as nat,
        UnsignedWidth::U128 => u64::MAX as nat,
        UnsignedWidth::Usize => usize::MAX as nat,
    }
}

/// Whether `v` fits the integer type `w`.
pub open spec fn fits(w: UnsignedWidth, v: u64) -> bool {
    v <= width_max(w)
}

/// The tokens of the numbers of `vs`, one each, in order.
pub open spec fn tokens_of(c: CodecView, vs: Seq<u64>) -> Seq<Seq<char>> {
    vs.map_values(|v: u64| token(c, seq![v]))
}

/// Encoding a sequence of numbers of type `w`.
pub open spec fn encoded_numbers(c: CodecView, w: UnsignedWidth, vs: Seq<u64>) -> Result<
    Seq<Seq<char>>,
    FieldError,
> {
    if forall|i: int| 0 <= i < vs.len() ==> fits(w, #[trigger] vs[i]) {
        Ok(tokens_of(c, vs))
    } else {
        Err(FieldError::OutOfRange)
    }
}

/// Encoding one number of type `w`.
pub open spec fn encoded_number(c: CodecView, w: UnsignedWidth, v: u64) -> Result<Seq<char>, FieldError> {
    if fits(w, v) {
        Ok(token(c, seq![v]))
    } else {
        Err(FieldError::OutOfRange)
    }
}

/// What encoding a field of category `cat` that holds `v` gives.
pub open spec fn encoded_field<P>(c: CodecView, cat: FieldCategory, v: FieldValueView<P>) -> Result<
    WireView<P>,
    FieldError,
> {
    match (cat, v) {
        (FieldCategory::Numeric(w), FieldValueView::Number(n)) => match encoded_number(c, w, n) {
            Ok(t) => Ok(WireView::Token(t)),
            Err(e) => Err(e),
        },
        (FieldCategory::SequenceOfNumeric(w), FieldValueView::Numbers(vs)) => match encoded_numbers(
            c,
            w,
            vs,
        ) {
            Ok(ts) => Ok(WireView::Tokens(ts)),
            Err(e) => Err(e),
        },
        (FieldCategory::OptionalNumeric(w), FieldValueView::MaybeNumber(None)) => Ok(WireView::Null),
        (FieldCategory::OptionalNumeric(w), FieldValueView::MaybeNumber(Some(n))) => match encoded_number(
            c,
            w,
            n,
        ) {
            Ok(t) => Ok(WireView::Token(t)),
            Err(e) => Err(e),
        },
        (
            FieldCategory::OptionalSequenceOfNumeric(w),
            FieldValueView::MaybeNumbers(None),
        ) => Ok(WireView::Null),
        (
            FieldCategory::OptionalSequenceOfNumeric(w),
            FieldValueView::MaybeNumbers(Some(vs)),
        ) => match encoded_numbers(c, w, vs) {
            Ok(ts) => Ok(WireView::Tokens(ts)),
            Err(e) => Err(e),
        },
        (FieldCategory::Passthrough, FieldValueView::Passthrough(p)) => Ok(WireView::Passthrough(p)),
        _ => Err(FieldError::ShapeMismatch),
    }
}

/// Decoding one token as a number of type `w`.
pub open spec fn decoded_number(c: CodecView, w: UnsignedWidth, t: ReadTokenView) -> Result<u64, FieldError> {
    match single(read_back(c, t.text, t.read)) {
        Ok(n) => if fits(w, n) {
            Ok(n)
        } else {
            Err(FieldError::OutOfRange)
        },
        Err(e) => Err(FieldError::Codec(e)),
    }
}

/// Decoding tokens as numbers of type `w`, in order; the first failure
/// fails the whole.
pub open spec fn decoded_numbers(c: CodecView, w: UnsignedWidth, ts: Seq<ReadTokenView>) -> Result<
    Seq<u64>,
    FieldError,
>
    decreases ts.len(),
{
    if ts.len() == 0 {
        Ok(seq![])
    } else {
        match decoded_numbers(c, w, ts.drop_last()) {
            Err(e) => Err(e),
            Ok(vs) => match decoded_number(c, w, ts.last()) {
                Ok(n) => Ok(vs.push(n)),
                Err(e) => Err(e),
            },
        }
    }
}

/// What decoding a field of category `cat` from the wire value `v` gives.
pub open spec fn decoded_field<P>(c: CodecView, cat: FieldCategory, v: WireReadView<P>) -> Result<
    FieldValueView<P>,
    FieldError,
> {
    match (cat, v) {
        (FieldCategory::Numeric(w), WireReadView::Token(t)) => match decoded_number(c, w, t) {
            Ok(n) => Ok(FieldValueView::Number(n)),
            Err(e) => Err(e),
        },
        (FieldCategory::SequenceOfNumeric(w), WireReadView::Tokens(ts)) => match decoded_numbers(c, w, ts) {
            Ok(vs) => Ok(FieldValueView::Numbers(vs)),
            Err(e) => Err(e),
        },
        (FieldCategory::OptionalNumeric(w), WireReadView::Null) => Ok(FieldValueView::MaybeNumber(None)),
        (FieldCategory::OptionalNumeric(w), WireReadView::Token(t)) => match decoded_number(c, w, t) {
            Ok(n) => Ok(FieldValueView::MaybeNumber(Some(n))),
            Err(e) => Err(e),
        },
        (FieldCategory::OptionalSequenceOfNumeric(w), WireReadView::Null) => Ok(
            FieldValueView::MaybeNumbers(None),
        ),
        (FieldCategory::OptionalSequenceOfNumeric(w), WireReadView::Tokens(ts)) => match decoded_numbers(
            c,
            w,
            ts,
        ) {
            Ok(vs) => Ok(FieldValueView::MaybeNumbers(Some(vs))),
            Err(e) => Err(e),
        },
        (FieldCategory::Passthrough, WireReadView::Passthrough(p)) => Ok(FieldValueView::Passthrough(p)),
        _ => Err(FieldError::ShapeMismatch),
    }
}

/// Whether `v` fits the integer type `w`.
pub fn fits_width(w: UnsignedWidth, v: u64) -> (r: bool)
    ensures
        r == fits(w, v),
{
    match w {
        UnsignedWidth::U8 => v <= u8::MAX as u64,
        UnsignedWidth::U16 => v <= u16::MAX as u64,
        UnsignedWidth::U32 => v <= u32::MAX as u64,
        UnsignedWidth::U64 => true,
        UnsignedWidth::U128 => true,
        UnsignedWidth::Usize => v <= usize::MAX as u64,
    }
}

/// Encodes one number of type `w`.
pub fn encode_number(codec: &Codec, w: UnsignedWidth, v: u64) -> (r: Result<String, FieldError>)
    requires
        codec.wf(),
    ensures
        match r {
            Ok(t) => encoded_number(codec@, w, v) == Ok::<Seq<char>, FieldError>(t@),
            Err(e) => encoded_number(codec@, w, v) == Err::<Seq<char>, FieldError>(e),
        },
{
    if fits_width(w, v) {
        Ok(encode_single(codec, v))
    } else {
        Err(FieldError::OutOfRange)
    }
}

/// Encodes numbers of type `w`, one token each, in order.
pub fn encode_numbers(codec: &Codec, w: UnsignedWidth, vs: &Vec<u64>) -> (r: Result<Vec<String>, FieldError>)
    requires
        codec.wf(),
    ensures
        match r {
            Ok(ts) => encoded_numbers(codec@, w, vs@) == Ok::<Seq<Seq<char>>, FieldError>(views(ts@)),
            Err(e) => encoded_numbers(codec@, w, vs@) == Err::<Seq<Seq<char>>, FieldError>(e),
        },
{
    let mut i: usize = 0;
    while i < vs.len()
        invariant
            i <= vs@.len(),
            forall|j: int| 0 <= j < i ==> fits(w, #[trigger] vs@[j]),
        decreases vs@.len() - i,
    {
        if !fits_width(w, vs[i]) {
            assert(!fits(w, vs@[i as int]));
            return Err(FieldError::OutOfRange);
        }
        i = i + 1;
    }
    let mut ts: Vec<String> = Vec::new();
    let mut k: usize = 0;
    while k < vs.len()
        invariant
            codec.wf(),
            k <= vs@.len(),
            views(ts@) =~= tokens_of(codec@, vs@.take(k as int)),
        decreases vs@.len() - k,
    {
        let t = encode_single(codec, vs[k]);
        let ghost before = ts@;
        ts.push(t);
        assert(views(ts@) =~= views(before).push(t@));
        assert(vs@.take(k + 1) =~= vs@.take(k as int).push(vs@[k as int]));
        assert(tokens_of(codec@, vs@.take(k + 1)) =~= tokens_of(codec@, vs@.take(k as int)).push(
            token(codec@, seq![vs@[k as int]]),
        ));
        k = k + 1;
    }
    assert(vs@.take(vs@.len() as int) =~= vs@);
    Ok(ts)
}

/// Decodes one received token as a number of type `w`.
pub fn decode_number(codec: &Codec, w: UnsignedWidth, t: ReadToken) -> (r: Result<u64, FieldError>)
    requires
        codec.wf(),
    ensures
        r == decoded_number(codec@, w, t@),
{
    let ReadToken { text, read } = t;
    match decode_single(codec, text.as_str(), read) {
        Ok(n) => if fits_width(w, n) {
            Ok(n)
        } else {
            Err(FieldError::OutOfRange)
        },
        Err(e) => Err(FieldError::Codec(e)),
    }
}

/// The items of `v` in reverse order.
pub(crate) fn reversed<T>(v: Vec<T>) -> (r: Vec<T>)
    ensures
        r@.len() == v@.len(),
        forall|i: int| 0 <= i < v@.len() ==> r@[i] == v@[v@.len() - 1 - i],
{
    let ghost orig = v@;
    let mut rest = v;
    let mut out: Vec<T> = Vec::new();
    while rest.len() > 0
        invariant
            rest@ == orig.take(rest@.len() as int),
            rest@.len() <= orig.len(),
            out@.len() + rest@.len() == orig.len(),
            forall|i: int| 0 <= i < out@.len() ==> out@[i] == orig[orig.len() - 1 - i],
        decreases rest@.len(),
    {
        let x = rest.pop().unwrap();
        out.push(x);
        assert(rest@ =~= orig.take(rest@.len() as int));
    }
    out
}

/// Decodes received tokens as numbers of type `w`, in order; the first
/// failure fails the whole.
pub fn decode_numbers(codec: &Codec, w: UnsignedWidth, ts: Vec<ReadToken>) -> (r: Result<Vec<u64>, FieldError>)
    requires
        codec.wf(),
    ensures
        match r {
            Ok(vs) => decoded_numbers(codec@, w, ts@.map_values(|t: ReadToken| t@)) == Ok::<
                Seq<u64>,
                FieldError,
            >(vs@),
            Err(e) => decoded_numbers(codec@, w, ts@.map_values(|t: ReadToken| t@)) == Err::<
                Seq<u64>,
                FieldError,
            >(e),
        },
{
    let ghost views = ts@.map_values(|t: ReadToken| t@);
    let n = ts.len();
    let mut rest = reversed(ts);
    let mut vs: Vec<u64> = Vec::new();
    while rest.len() > 0
        invariant
            codec.wf(),
            views == ts@.map_values(|t: ReadToken| t@),
            views.len() == n,
            rest@.len() + vs@.len() == n,
            forall|t: int| 0 <= t < rest@.len() ==> rest@[t]@ == views[n - 1 - t],
            decoded_numbers(codec@, w, views.take(vs@.len() as int)) == Ok::<Seq<u64>, FieldError>(vs@),
        decreases rest@.len(),
    {
        let i = vs.len();
        let t = rest.pop().unwrap();
        assert(t@ == views[i as int]);
        let ghost prefix = views.take(i as int);
        let ghost next = views.take(i + 1);
        assert(next.drop_last() =~= prefix);
        assert(next.last() == views[i as int]);
        match decode_number(codec, w, t) {
            Ok(x) => vs.push(x),
            Err(e) => {
                proof {
                    lemma_first_failure_stays(codec@, w, views, i as int + 1);
                }
                return Err(e);
            },
        }
    }
    assert(views.take(n as int) =~= views);
    Ok(vs)
}

/// Once a prefix of the tokens fails to decode, so does every longer prefix,
/// with the same error.
proof fn lemma_first_failure_stays(c: CodecView, w: UnsignedWidth, ts: Seq<ReadTokenView>, k: int)
    requires
        0 < k <= ts.len(),
        decoded_numbers(c, w, ts.take(k)) is Err,
    ensures
        decoded_numbers(c, w, ts) == decoded_numbers(c, w, ts.take(k)),
    decreases ts.len() - k,
{
    if k < ts.len() {
        assert(ts.take(k + 1).drop_last() =~= ts.take(k));
        lemma_first_failure_stays(c, w, ts, k + 1);
    } else {
        assert(ts.take(k) =~= ts);
    }
}

/// Encodes a field of category `category` that holds `value`: numbers
/// become tokens, an absent value stays absent, a passthrough value is
/// handed on unchanged.
pub fn encode_field<P>(codec: &Codec, category: FieldCategory, value: FieldValue<P>) -> (r: Result<
    WireValue<P>,
    FieldError,
>)
    requires
        codec.wf(),
    ensures
        match r {
            Ok(v) => encoded_field(codec@, category, value@) == Ok::<WireView<P>, FieldError>(v@),
            Err(e) => encoded_field(codec@, category, value@) == Err::<WireView<P>, FieldError>(e),
        },
{
    match (category, value) {
        (FieldCategory::Numeric(w), FieldValue::Number(n)) => match encode_number(codec, w, n) {
            Ok(t) => Ok(WireValue::Token(t)),
            Err(e) => Err(e),
        },
        (FieldCategory::SequenceOfNumeric(w), FieldValue::Numbers(vs)) => match encode_numbers(
            codec,
            w,
            &vs,
        ) {
            Ok(ts) => Ok(WireValue::Tokens(ts)),
            Err(e) => Err(e),
        },
        (FieldCategory::OptionalNumeric(w), FieldValue::MaybeNumber(None)) => Ok(WireValue::Null),
        (FieldCategory::OptionalNumeric(w), FieldValue::MaybeNumber(Some(n))) => match encode_number(
            codec,
            w,
            n,
        ) {
            Ok(t) => Ok(WireValue::Token(t)),
            Err(e) => Err(e),
        },
        (FieldCategory::OptionalSequenceOfNumeric(w), FieldValue::MaybeNumbers(None)) => Ok(
            WireValue::Null,
        ),
        (
            FieldCategory::OptionalSequenceOfNumeric(w),
            FieldValue::MaybeNumbers(Some(vs)),
        ) => match encode_numbers(codec, w, &vs) {
            Ok(ts) => Ok(WireValue::Tokens(ts)),
            Err(e) => Err(e),
        },
        (FieldCategory::Passthrough, FieldValue::Passthrough(p)) => Ok(WireValue::Passthrough(p)),
        _ => Err(FieldError::ShapeMismatch),
    }
}

/// Decodes a field of category `category` from the wire value `value`:
/// tokens become numbers of the field's type, `null` becomes absent, a
/// passthrough value is handed on unchanged.
pub fn decode_field<P>(codec: &Codec, category: FieldCategory, value: WireRead<P>) -> (r: Result<
    FieldValue<P>,
    FieldError,
>)
    requires
        codec.wf(),
    ensures
        match r {
            Ok(v) => decoded_field(codec@, category, value@) == Ok::<FieldValueView<P>, FieldError>(v@),
            Err(e) => decoded_field(codec@, category, value@) == Err::<FieldValueView<P>, FieldError>(e),
        },
{
    match (category, value) {
        (FieldCategory::Numeric(w), WireRead::Token(t)) => match decode_number(codec, w, t) {
            Ok(n) => Ok(FieldValue::Number(n)),
            Err(e) => Err(e),
        },
        (FieldCategory::SequenceOfNumeric(w), WireRead::Tokens(ts)) => match decode_numbers(codec, w, ts) {
            Ok(vs) => Ok(FieldValue::Numbers(vs)),
            Err(e) => Err(e),
        },
        (FieldCategory::OptionalNumeric(w), WireRead::Null) => Ok(FieldValue::MaybeNumber(None)),
        (FieldCategory::OptionalNumeric(w), WireRead::Token(t)) => match decode_number(codec, w, t) {
            Ok(n) => Ok(FieldValue::MaybeNumber(Some(n))),
            Err(e) => Err(e),
        },
        (FieldCategory::OptionalSequenceOfNumeric(w), WireRead::Null) => Ok(
            FieldValue::MaybeNumbers(None),
        ),
        (FieldCategory::OptionalSequenceOfNumeric(w), WireRead::Tokens(ts)) => match decode_numbers(codec, w, ts) {
            Ok(vs) => Ok(FieldValue::MaybeNumbers(Some(vs))),
            Err(e) => Err(e),
        },
        (FieldCategory::Passthrough, WireRead::Passthrough(p)) => Ok(FieldValue::Passthrough(p)),
        _ => Err(FieldError::ShapeMismatch),
    }
}

} // verus!
