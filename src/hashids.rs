//! The codec: integer sequences to alphabet-bound tokens and back.
use crate::salt::{generate_salt, is_ascii_alphanumeric, SALT_LEN};
use hash_ids::HashIds;
use vstd::prelude::*;
use vstd::string::*;

verus! {

/// The smallest number of distinct characters that an alphabet needs.
pub const MIN_ALPHABET_LEN: usize = 16;

/// The token that `hash_ids` writes for `vals` under the given salt,
/// minimum length and alphabet.
pub uninterp spec fn hashids_encoding(
    salt: Seq<char>,
    min_length: nat,
    alphabet: Seq<char>,
    vals: Seq<u64>,
) -> Seq<char>;

/// hash_ids' encoder, carried inside a `Codec` and never looked into.
#[verifier::external_type_specification]
#[verifier::external_body]
pub struct ExHashIds(HashIds);

/// hash_ids' error enum, whose unit variants `build_codec` reports and
/// `Codec::new` maps to `OptionsError`.
#[verifier::external_type_specification]
pub struct ExHashIdsError(hash_ids::Error);

/// What a codec is configured with.
pub ghost struct CodecView {
    pub salt: Seq<char>,
    pub min_length: nat,
    pub alphabet: Seq<char>,
}


/// The longest sequence that `hash_ids` is handed in one token.
pub open spec fn max_values() -> nat {
    u32::MAX as nat
}

/// The token that `hash_ids` writes for `vals` under `c`.
pub open spec fn raw_token(c: CodecView, vals: Seq<u64>) -> Seq<char> {
    hashids_encoding(c.salt, c.min_length, c.alphabet, vals)
}

/// Whether every number of `s` is `u64::MAX` (true of the empty sequence).
pub open spec fn all_max(s: Seq<u64>) -> bool {
    forall|i: int| 0 <= i < s.len() ==> s[i] == u64::MAX
}

/// The non-empty sequence that stands for `s` before `hash_ids`: `s`
/// itself, except that a run of `u64::MAX`, the empty run included, gets
/// one more `u64::MAX`.
pub open spec fn lifted(s: Seq<u64>) -> Seq<u64> {
    if all_max(s) {
        s.push(u64::MAX)
    } else {
        s
    }
}

/// The sequence that a non-empty `t` stands for: the inverse of `lifted`.
pub open spec fn lowered(t: Seq<u64>) -> Seq<u64> {
    if all_max(t) {
        t.drop_last()
    } else {
        t
    }
}

/// The token for `vals` under `c`.
pub open spec fn token(c: CodecView, vals: Seq<u64>) -> Seq<char> {
    raw_token(c, lifted(vals))
}

/// What holds of every token that `hash_ids` writes for a non-empty
/// sequence under `c`: it is non-empty and at least `min_length` long,
/// every character is drawn from the alphabet, and distinct sequences have
/// distinct tokens.
pub open spec fn token_laws(c: CodecView) -> bool {
    &&& forall|t: Seq<u64>|
        0 < t.len() <= max_values() ==> #[trigger] raw_token(c, t).len() >= c.min_length
            && raw_token(c, t).len() > 0
    &&& forall|t: Seq<u64>, i: int|
        0 < t.len() <= max_values() && 0 <= i < raw_token(c, t).len() ==> c.alphabet.contains(
            #[trigger] raw_token(c, t)[i],
        )
    &&& forall|t1: Seq<u64>, t2: Seq<u64>|
        0 < t1.len() <= max_values() && 0 < t2.len() <= max_values() && #[trigger] raw_token(c, t1)
            == #[trigger] raw_token(c, t2) ==> t1 == t2
}

/// `lifted` is non-empty, one longer at most, and `lowered` undoes it.
pub proof fn lemma_lifted(s: Seq<u64>)
    ensures
        lifted(s).len() > 0,
        lifted(s).len() <= s.len() + 1,
        lowered(lifted(s)) == s,
{
    if all_max(s) {
        assert(all_max(s.push(u64::MAX)));
        assert(s.push(u64::MAX).drop_last() =~= s);
    }
}

/// `lifted` undoes `lowered` on a non-empty sequence.
pub proof fn lemma_lowered(t: Seq<u64>)
    requires
        t.len() > 0,
    ensures
        lifted(lowered(t)) == t,
{
    if all_max(t) {
        assert(all_max(t.drop_last()));
        assert(t.drop_last().push(u64::MAX) =~= t);
    }
}

/// Why an alphabet cannot configure a codec.
#[derive(Debug, Clone, Copy, PartialEq, Eq, Structural)]
pub enum OptionsError {
    /// A character occurs twice.
    AlphabetNotUnique,
    /// The alphabet holds the NUL character.
    ContainsNul,
    /// Fewer than sixteen characters.
    AlphabetTooSmall,
    /// The alphabet holds a space.
    ContainsSpace,
}

/// The error, if any, that an alphabet gives.
pub open spec fn alphabet_error(alphabet: Seq<char>) -> Option<OptionsError> {
    if !alphabet.no_duplicates() {
        Some(OptionsError::AlphabetNotUnique)
    } else if alphabet.contains('\u{0}') {
        Some(OptionsError::ContainsNul)
    } else if alphabet.len() < MIN_ALPHABET_LEN {
        Some(OptionsError::AlphabetTooSmall)
    } else if alphabet.contains(' ') {
        Some(OptionsError::ContainsSpace)
    } else {
        None
    }
}

/// A configured codec. It is only made by `Codec::new`, from a valid
/// alphabet.
pub struct Codec {
    ids: HashIds,
    salt: String,
    min_length: usize,
    alphabet: String,
}

impl View for Codec {
    type V = CodecView;

    closed spec fn view(&self) -> CodecView {
        CodecView { salt: self.salt@, min_length: self.min_length as nat, alphabet: self.alphabet@ }
    }
}

/// Relies on hash_ids' builder (`HashIds::builder`, `with_salt`,
/// `with_min_length`, `with_alphabet`, `finish`): for an alphabet without
/// repeated characters, `finish` fails with `AlphabetTooSmall` below sixteen
/// characters and with `ContainsSpace` on a space; the codec it builds
/// inverts its own `encode`, pads to the minimum length and writes only
/// characters of the alphabet.
#[verifier::external_body]
fn build_codec(salt: &str, min_length: usize, alphabet: &str) -> (r: Result<Codec, hash_ids::Error>)
    requires
        alphabet@.no_duplicates(),
        !alphabet@.contains('\u{0}'),
        usize::MAX == u64::MAX,
    ensures
        (alphabet@.len() >= MIN_ALPHABET_LEN && !alphabet@.contains(' ')) == (r is Ok),
        r matches Err(e) ==> (e is AlphabetTooSmall <==> alphabet@.len() < MIN_ALPHABET_LEN),
        r matches Err(e) ==> (e is ContainsSpace <==> alphabet@.len() >= MIN_ALPHABET_LEN),
        r matches Ok(c) ==> c@.salt == salt@ && c@.min_length == min_length && c@.alphabet == alphabet@,
        r matches Ok(c) ==> token_laws(c@),
{
    let built = HashIds::builder()
        .with_salt(salt)
        .with_min_length(min_length)
        .with_alphabet(alphabet)
        .finish();
    match built {
        Ok(ids) => Ok(Codec { ids, salt: salt.to_string(), min_length, alphabet: alphabet.to_string() }),
        Err(e) => Err(e),
    }
}

/// Relies on hash_ids::HashIds::encode, which writes the token for `vals`
/// under the codec's salt, minimum length and alphabet. Its running sum
/// stays in a `usize` while `vals` has at most `u32::MAX` items, and it
/// divides by the code of the first digit, which is not NUL.
#[verifier::external_body]
fn encode_with(codec: &Codec, vals: &[u64]) -> (r: String)
    requires
        usize::MAX == u64::MAX,
        !codec@.alphabet.contains('\u{0}'),
        vals@.len() <= max_values(),
    ensures
        r@ == hashids_encoding(codec@.salt, codec@.min_length, codec@.alphabet, vals@),
{
    codec.ids.encode(vals)
}

/// Whether some character occurs twice in `s`.
fn has_repeated_char(s: &str) -> (r: bool)
    ensures
        r == !s@.no_duplicates(),
{
    let n = s.unicode_len();
    let mut i: usize = 0;
    while i < n
        invariant
            n == s@.len(),
            i <= n,
            forall|a: int, b: int| 0 <= a < i && a < b < n ==> s@[a] != s@[b],
        decreases n - i,
    {
        let c = s.get_char(i);
        let mut j: usize = i + 1;
        while j < n
            invariant
                n == s@.len(),
                i < j <= n,
                c == s@[i as int],
                forall|b: int| i < b < j ==> s@[i as int] != s@[b],
            decreases n - j,
        {
            if s.get_char(j) == c {
                return true;
            }
            j = j + 1;
        }
        i = i + 1;
    }
    false
}

/// Whether `s` holds the character `c`.
fn has_char(s: &str, c: char) -> (r: bool)
    ensures
        r == s@.contains(c),
{
    let n = s.unicode_len();
    let mut i: usize = 0;
    while i < n
        invariant
            n == s@.len(),
            i <= n,
            forall|a: int| 0 <= a < i ==> s@[a] != c,
        decreases n - i,
    {
        if s.get_char(i) == c {
            return true;
        }
        i = i + 1;
    }
    false
}

impl Codec {
    /// Whether the codec was built on a 64-bit target from a valid alphabet,
    /// with the laws of its tokens.
    pub closed spec fn wf(&self) -> bool {
        &&& usize::MAX == u64::MAX
        &&& alphabet_error(self@.alphabet) is None
        &&& token_laws(self@)
    }

    /// The laws of the tokens of a well-formed codec.
    pub proof fn lemma_laws(&self)
        requires
            self.wf(),
        ensures
            token_laws(self@),
            alphabet_error(self@.alphabet) is None,
    {
    }

    /// Builds the codec for a salt, a minimum length and an alphabet; fails
    /// exactly when the alphabet is invalid.
    pub fn new(salt: &str, min_length: usize, alphabet: &str) -> (r: Result<Codec, OptionsError>)
        requires
            usize::MAX == u64::MAX,
        ensures
            r matches Ok(c) ==> c.wf() && c@ == (CodecView {
                salt: salt@,
                min_length: min_length as nat,
                alphabet: alphabet@,
            }),
            r matches Err(e) ==> alphabet_error(alphabet@) == Some(e),
            r is Ok <==> alphabet_error(alphabet@) is None,
    {
        if has_repeated_char(alphabet) {
            return Err(OptionsError::AlphabetNotUnique);
        }
        if has_char(alphabet, '\u{0}') {
            return Err(OptionsError::ContainsNul);
        }
        match build_codec(salt, min_length, alphabet) {
            Ok(c) => Ok(c),
            Err(hash_ids::Error::AlphabetTooSmall) => Err(OptionsError::AlphabetTooSmall),
            Err(_) => Err(OptionsError::ContainsSpace),
        }
    }

    /// The `hash_ids` encoder inside, for a host to read tokens with.
    pub fn hash_ids(&self) -> &HashIds {
        &self.ids
    }
}

/// Why a token could not be read back.
#[derive(Debug, Clone, Copy, PartialEq, Eq, Structural)]
pub enum CodecError {
    /// The text is no token under the codec's options.
    DecodeError,
    /// The token holds other than exactly one number.
    ArityError,
}

/// Whether `text` is the token of some sequence under `c`.
pub open spec fn is_token(c: CodecView, text: Seq<char>) -> bool {
    exists|s: Seq<u64>| s.len() < max_values() && #[trigger] token(c, s) == text
}

/// The sequence whose token `text` is under `c`, else a `DecodeError`.
pub open spec fn decoded(c: CodecView, text: Seq<char>) -> Result<Seq<u64>, CodecError> {
    if is_token(c, text) {
        Ok(choose|s: Seq<u64>| s.len() < max_values() && #[trigger] token(c, s) == text)
    } else {
        Err(CodecError::DecodeError)
    }
}

/// What decoding `text` gives when `hash_ids` read the numbers `read` from
/// it: the sequence they stand for when `hash_ids` writes exactly `text`
/// for them, else a `DecodeError`.
pub open spec fn read_back(c: CodecView, text: Seq<char>, read: Option<Seq<u64>>) -> Result<
    Seq<u64>,
    CodecError,
> {
    match read {
        Some(t) => if 0 < t.len() <= max_values() && lowered(t).len() < max_values() && raw_token(c, t)
            == text {
            Ok(lowered(t))
        } else {
            Err(CodecError::DecodeError)
        },
        None => Err(CodecError::DecodeError),
    }
}

/// Decoding as a single number: exactly one number, else an `ArityError`.
pub open spec fn single(r: Result<Seq<u64>, CodecError>) -> Result<u64, CodecError> {
    match r {
        Ok(s) => if s.len() == 1 {
            Ok(s[0])
        } else {
            Err(CodecError::ArityError)
        },
        Err(e) => Err(e),
    }
}

/// The view of an optional sequence of numbers.
pub open spec fn read_view(read: Option<Vec<u64>>) -> Option<Seq<u64>> {
    match read {
        Some(v) => Some(v@),
        None => None,
    }
}

/// Whether every number of `s` is `u64::MAX`.
fn is_all_max(s: &[u64]) -> (r: bool)
    ensures
        r == all_max(s@),
{
    let mut i: usize = 0;
    while i < s.len()
        invariant
            i <= s@.len(),
            forall|j: int| 0 <= j < i ==> s@[j] == u64::MAX,
        decreases s@.len() - i,
    {
        if s[i] != u64::MAX {
            return false;
        }
        i = i + 1;
    }
    true
}

/// Encodes a sequence of numbers into its token, which is never empty and
/// at least the minimum length long.
pub fn encode(codec: &Codec, data: &[u64]) -> (r: String)
    requires
        codec.wf(),
        data@.len() < max_values(),
    ensures
        r@ == token(codec@, data@),
        r@.len() > 0,
        r@.len() >= codec@.min_length,
        forall|i: int| 0 <= i < r@.len() ==> codec@.alphabet.contains(#[trigger] r@[i]),
{
    proof {
        lemma_lifted(data@);
        codec.lemma_laws();
    }
    let mut vals = vstd::slice::slice_to_vec(data);
    if is_all_max(data) {
        vals.push(u64::MAX);
    }
    assert(vals@ == lifted(data@));
    encode_with(codec, vals.as_slice())
}

/// Encodes one number into its token.
pub fn encode_single(codec: &Codec, data: u64) -> (r: String)
    requires
        codec.wf(),
    ensures
        r@ == token(codec@, seq![data]),
        r@.len() > 0,
        r@.len() >= codec@.min_length,
        forall|i: int| 0 <= i < r@.len() ==> codec@.alphabet.contains(#[trigger] r@[i]),
{
    let one = [data];
    proof {
        assert(one@ =~= seq![data]);
    }
    encode(codec, &one)
}

/// Decodes `hash`, given the numbers `read` that `hash_ids` read from it:
/// they are taken, as the sequence they stand for, exactly when `hash_ids`
/// writes `hash` for them. The result is then the sequence whose token
/// `hash` is; any other text fails with `DecodeError`.
pub fn decode(codec: &Codec, hash: &str, read: Option<Vec<u64>>) -> (r: Result<Vec<u64>, CodecError>)
    requires
        codec.wf(),
    ensures
        match r {
            Ok(v) => read_back(codec@, hash@, read_view(read)) == Ok::<Seq<u64>, CodecError>(v@)
                && decoded(codec@, hash@) == Ok::<Seq<u64>, CodecError>(v@),
            Err(e) => read_back(codec@, hash@, read_view(read)) == Err::<Seq<u64>, CodecError>(e),
        },
{
    match read {
        None => Err(CodecError::DecodeError),
        Some(mut t) => {
            if t.len() == 0 || t.len() > u32::MAX as usize {
                return Err(CodecError::DecodeError);
            }
            let again = encode_with(codec, t.as_slice());
            if again == hash.to_owned() {
                let ghost t0 = t@;
                if is_all_max(t.as_slice()) {
                    t.pop();
                }
                if t.len() >= u32::MAX as usize {
                    return Err(CodecError::DecodeError);
                }
                proof {
                    assert(t@ == lowered(t0));
                    lemma_lowered(t0);
                    lemma_lifted(t@);
                    assert(token(codec@, t@) == hash@);
                    lemma_token_unique(codec, t@, hash@);
                }
                Ok(t)
            } else {
                Err(CodecError::DecodeError)
            }
        },
    }
}

/// Where `text` is the token of `s`, `s` is what decoding `text` gives.
pub proof fn lemma_token_unique(c: &Codec, s: Seq<u64>, text: Seq<char>)
    requires
        c.wf(),
        s.len() < max_values(),
        token(c@, s) == text,
    ensures
        decoded(c@, text) == Ok::<Seq<u64>, CodecError>(s),
{
    c.lemma_laws();
    let w = choose|w: Seq<u64>| w.len() < max_values() && #[trigger] token(c@, w) == text;
    lemma_lifted(s);
    lemma_lifted(w);
    assert(raw_token(c@, lifted(w)) == raw_token(c@, lifted(s)));
    assert(lifted(w) == lifted(s));
}

/// Decodes `hash` as a single number, given the numbers `read` that
/// `hash_ids` read from it.
pub fn decode_single(codec: &Codec, hash: &str, read: Option<Vec<u64>>) -> (r: Result<u64, CodecError>)
    requires
        codec.wf(),
    ensures
        r == single(read_back(codec@, hash@, read_view(read))),
        r matches Ok(v) ==> decoded(codec@, hash@) == Ok::<Seq<u64>, CodecError>(seq![v]),
{
    match decode(codec, hash, read) {
        Err(e) => Err(e),
        Ok(v) => {
            if v.len() != 1 {
                Err(CodecError::ArityError)
            } else {
                assert(v@ =~= seq![v@[0]]);
                Ok(v[0])
            }
        },
    }
}

/// The minimum token length of the default options.
pub const DEFAULT_MIN_LENGTH: usize = 8;

/// The alphabet of the default options: ASCII letters and digits.
pub const DEFAULT_ALPHABET: &'static str = "abcdefghijklmnopqrstuvwxyzABCDEFGHIJKLMNOPQRSTUVWXYZ1234567890";

/// Configuration of the codec: salt, minimum token length and alphabet.
pub struct SerdeHashOptions {
    /// Salt that perturbs the order of the alphabet.
    pub salt: String,
    /// Minimum length of a token.
    pub min_length: usize,
    /// Characters that tokens are written with.
    pub alphabet: String,
}

impl SerdeHashOptions {
    /// Whether these are default options: a random salt of ASCII letters and
    /// digits, the default minimum length and the default alphabet.
    pub open spec fn is_default(&self) -> bool {
        &&& self.salt@.len() == SALT_LEN
        &&& forall|i: int| 0 <= i < self.salt@.len() ==> is_ascii_alphanumeric(#[trigger] self.salt@[i])
        &&& self.min_length == DEFAULT_MIN_LENGTH
        &&& self.alphabet@ == DEFAULT_ALPHABET@
    }

    /// What a codec built from these options is configured with.
    pub open spec fn codec_view(&self) -> CodecView {
        CodecView { salt: self.salt@, min_length: self.min_length as nat, alphabet: self.alphabet@ }
    }

    /// Default options, with a freshly generated salt.
    pub fn new() -> (r: Self)
        ensures
            r.is_default(),
    {
        SerdeHashOptions {
            salt: generate_salt(),
            min_length: DEFAULT_MIN_LENGTH,
            alphabet: DEFAULT_ALPHABET.to_owned(),
        }
    }

    /// The same options with another salt.
    pub fn with_salt(self, salt: &str) -> (r: Self)
        ensures
            r.salt@ == salt@,
            r.min_length == self.min_length,
            r.alphabet@ == self.alphabet@,
    {
        SerdeHashOptions { salt: salt.to_owned(), ..self }
    }

    /// The same options with another minimum token length.
    pub fn with_min_length(self, min_length: usize) -> (r: Self)
        ensures
            r.salt@ == self.salt@,
            r.min_length == min_length,
            r.alphabet@ == self.alphabet@,
    {
        SerdeHashOptions { min_length, ..self }
    }

    /// The same options with another alphabet.
    pub fn with_alphabet(self, alphabet: &str) -> (r: Self)
        ensures
            r.salt@ == self.salt@,
            r.min_length == self.min_length,
            r.alphabet@ == alphabet@,
    {
        SerdeHashOptions { alphabet: alphabet.to_owned(), ..self }
    }

    /// Commits these options to `slot`. The first options committed stay:
    /// a later commit leaves the slot as it was.
    pub fn build(self, slot: &mut HashOptionsSlot)
        ensures
            old(slot)@ is None ==> final(slot)@ == Some(self),
            old(slot)@ is Some ==> final(slot)@ == old(slot)@,
    {
        if slot.options.is_none() {
            slot.options = Some(self);
        }
    }

    /// The codec for these options; fails exactly when the alphabet is
    /// invalid.
    pub fn codec(&self) -> (r: Result<Codec, OptionsError>)
        requires
            usize::MAX == u64::MAX,
        ensures
            r matches Ok(c) ==> c.wf() && c@ == self.codec_view(),
            r matches Err(e) ==> alphabet_error(self.alphabet@) == Some(e),
            r is Ok <==> alphabet_error(self.alphabet@) is None,
    {
        Codec::new(self.salt.as_str(), self.min_length, self.alphabet.as_str())
    }
}

impl Default for SerdeHashOptions {
    fn default() -> (r: Self)
        ensures
            r.is_default(),
    {
        SerdeHashOptions::new()
    }
}

/// Holds the process's options: empty until the first commit, then fixed.
pub struct HashOptionsSlot {
    options: Option<SerdeHashOptions>,
}

impl View for HashOptionsSlot {
    type V = Option<SerdeHashOptions>;

    closed spec fn view(&self) -> Option<SerdeHashOptions> {
        self.options
    }
}

impl HashOptionsSlot {
    /// An empty slot.
    pub fn new() -> (r: Self)
        ensures
            r@ is None,
    {
        HashOptionsSlot { options: None }
    }

    /// Whether options were committed.
    pub fn is_configured(&self) -> (r: bool)
        ensures
            r == self@ is Some,
    {
        self.options.is_some()
    }
}

/// The options of `slot`; an empty slot is first filled with default
/// options, which then stay.
pub fn get_hash_options(slot: &mut HashOptionsSlot) -> (r: &SerdeHashOptions)
    ensures
        old(slot)@ is Some ==> final(slot)@ == old(slot)@,
        old(slot)@ is None ==> final(slot)@ is Some && final(slot)@->Some_0.is_default(),
        final(slot)@ == Some(*r),
{
    if slot.options.is_none() {
        slot.options = Some(SerdeHashOptions::new());
    }
    slot.options.as_ref().unwrap()
}

} // verus!
