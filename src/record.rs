//! Records: a schema of named, classified fields, checked once, and the
//! transforms of whole records through it.
use crate::classify::{category_of, classify, names_field, ClassificationError, FieldCategory, FieldDescriptor};
use crate::dispatch::{
    decode_field, decoded_field, encode_field, encoded_field, reversed, FieldError, FieldValue,
    FieldValueView, WireRead, WireValue, WireView,
};
use crate::hashids::{Codec, CodecView};
use vstd::prelude::*;

verus! {

/// Why a record could not be transformed.
#[derive(Debug)]
pub enum RecordError {
    /// No entry for the named field.
    MissingField(String),
    /// Two entries for the named field.
    DuplicateField(String),
    /// The named field's value could not be transformed.
    Field(String, FieldError),
    /// Not one value per field.
    FieldCount,
}

/// The fields of a record type, in order, each with its category.
pub struct RecordSchema {
    names: Vec<String>,
    categories: Vec<FieldCategory>,
}

/// A schema: its field names and their categories.
pub ghost struct RecordSchemaView {
    pub names: Seq<Seq<char>>,
    pub categories: Seq<FieldCategory>,
}

impl View for RecordSchema {
    type V = RecordSchemaView;

    closed spec fn view(&self) -> RecordSchemaView {
        RecordSchemaView { names: self.names@.map_values(|n: String| n@), categories: self.categories@ }
    }
}

/// The field that an entry with key `key` fills: the first field of that
/// name, if any.
pub open spec fn owner(names: Seq<Seq<char>>, key: Seq<char>) -> Option<int>
    decreases names.len(),
{
    if names.len() == 0 {
        None
    } else {
        match owner(names.drop_last(), key) {
            Some(i) => Some(i),
            None => if names.last() == key {
                Some(names.len() - 1)
            } else {
                None
            },
        }
    }
}

/// An owner is a field of that name.
pub proof fn lemma_owner_bounds(names: Seq<Seq<char>>, key: Seq<char>)
    ensures
        owner(names, key) matches Some(i) ==> 0 <= i < names.len() && names[i] == key,
    decreases names.len(),
{
    if names.len() > 0 {
        lemma_owner_bounds(names.drop_last(), key);
    }
}

/// The key of a record entry.
pub open spec fn entry_key<P>(e: (String, WireRead<P>)) -> Seq<char> {
    e.0@
}

impl RecordSchema {
    /// Field names and categories go together.
    pub closed spec fn wf(&self) -> bool {
        self.names@.len() == self.categories@.len()
    }

    /// The number of fields.
    pub open spec fn spec_len(&self) -> nat {
        self@.names.len()
    }

    /// Classifies every field of a record type, once; fails on the first
    /// marked field that has no numeric category.
    pub fn new(fields: &Vec<FieldDescriptor>) -> (r: Result<RecordSchema, ClassificationError>)
        ensures
            match r {
                Ok(s) => s.wf() && s@.names.len() == fields@.len() && s@.categories.len() == fields@.len()
                    && forall|i: int|
                    0 <= i < fields@.len() ==> s@.names[i] == (#[trigger] fields@[i]).name@
                        && category_of(fields@[i]) == Some(s@.categories[i]),
                Err(e) => exists|i: int|
                    0 <= i < fields@.len() && category_of(#[trigger] fields@[i]) is None
                        && names_field(e, fields@[i]) && forall|j: int|
                        0 <= j < i ==> category_of(#[trigger] fields@[j]) is Some,
            },
    {
        let mut names: Vec<String> = Vec::new();
        let mut categories: Vec<FieldCategory> = Vec::new();
        let mut i: usize = 0;
        while i < fields.len()
            invariant
                i <= fields@.len(),
                names@.len() == i,
                categories@.len() == i,
                forall|j: int|
                    0 <= j < i ==> names@[j]@ == (#[trigger] fields@[j]).name@ && category_of(fields@[j])
                        == Some(categories@[j]),
            decreases fields@.len() - i,
        {
            match classify(&fields[i]) {
                Ok(c) => {
                    names.push(fields[i].name.clone());
                    categories.push(c);
                },
                Err(e) => {
                    assert(forall|j: int| 0 <= j < i ==> category_of(#[trigger] fields@[j]) is Some);
                    return Err(e);
                },
            }
            i = i + 1;
        }
        let s = RecordSchema { names, categories };
        assert forall|j: int| 0 <= j < fields@.len() implies s@.names[j] == (#[trigger] fields@[j]).name@ by {
            assert(s@.names[j] == s.names@[j]@);
        }
        Ok(s)
    }

    /// The number of fields.
    pub fn len(&self) -> (r: usize)
        ensures
            r == self.spec_len(),
    {
        self.names.len()
    }

    /// The category of the field that an entry with key `key` fills, if
    /// any: a host reads a wire value by it.
    pub fn key_category(&self, key: &String) -> (r: Option<FieldCategory>)
        requires
            self.wf(),
        ensures
            match owner(self@.names, key@) {
                Some(i) => r == Some(self@.categories[i]),
                None => r is None,
            },
    {
        match self.field_index(key) {
            Some(j) => Some(self.categories[j]),
            None => None,
        }
    }

    /// The field that an entry with key `key` fills.
    fn field_index(&self, key: &String) -> (r: Option<usize>)
        requires
            self.wf(),
        ensures
            r matches Some(j) ==> owner(self@.names, key@) == Some(j as int) && j < self.spec_len(),
            r is None ==> owner(self@.names, key@) is None,
    {
        let ghost names = self@.names;
        let mut j: usize = 0;
        while j < self.names.len()
            invariant
                j <= names.len(),
                names == self@.names,
                names.len() == self.names@.len(),
                owner(names.take(j as int), key@) is None,
            decreases names.len() - j,
        {
            assert(names.take(j + 1).drop_last() =~= names.take(j as int));
            if self.names[j] == *key {
                assert(names[j as int] == self.names@[j as int]@);
                proof {
                    lemma_owner_prefix(names, key@, j + 1);
                }
                return Some(j);
            }
            assert(names[j as int] == self.names@[j as int]@);
            j = j + 1;
        }
        assert(names.take(j as int) =~= names);
        None
    }
}

impl RecordSchema {
    /// Encodes the values of a record, one per field in order: each by its
    /// field's category. Fails on the first field that does not encode.
    pub fn encode_record<P>(&self, codec: &Codec, values: Vec<FieldValue<P>>) -> (r: Result<
        Vec<WireValue<P>>,
        RecordError,
    >)
        requires
            self.wf(),
            codec.wf(),
        ensures
            values@.len() != self.spec_len() ==> r matches Err(RecordError::FieldCount),
            values@.len() == self.spec_len() ==> match r {
                Ok(ws) => ws@.len() == values@.len() && forall|i: int|
                    0 <= i < values@.len() ==> encoded_field(
                        codec@,
                        self@.categories[i],
                        (#[trigger] values@[i])@,
                    ) == Ok::<_, FieldError>(ws@[i]@),
                Err(RecordError::Field(name, e)) => exists|i: int|
                    0 <= i < values@.len() && encoded_field(
                        codec@,
                        self@.categories[i],
                        (#[trigger] values@[i])@,
                    ) == Err::<WireView<P>, _>(e) && name@ == self@.names[i]
                        && forall|j: int|
                        0 <= j < i ==> encoded_field(
                            codec@,
                            self@.categories[j],
                            (#[trigger] values@[j])@,
                        ) is Ok,
                Err(_) => false,
            },
    {
        let n = self.names.len();
        assert(n == self.spec_len());
        if values.len() != n {
            return Err(RecordError::FieldCount);
        }
        let ghost vals = values@;
        let mut rest = reversed(values);
        let mut out: Vec<WireValue<P>> = Vec::new();
        while rest.len() > 0
            invariant
                self.wf(),
                codec.wf(),
                n == self.spec_len(),
                vals == values@,
                vals.len() == n,
                rest@.len() + out@.len() == n,
                forall|t: int| 0 <= t < rest@.len() ==> rest@[t] == vals[n - 1 - t],
                forall|i: int|
                    0 <= i < out@.len() ==> encoded_field(codec@, self@.categories[i], (#[trigger] vals[i])@)
                        == Ok::<_, FieldError>(out@[i]@),
            decreases rest@.len(),
        {
            let i = out.len();
            let v = rest.pop().unwrap();
            assert(v == vals[i as int]);
            match encode_field(codec, self.categories[i], v) {
                Ok(w) => out.push(w),
                Err(e) => {
                    assert(self.names@[i as int]@ == self@.names[i as int]);
                    return Err(RecordError::Field(self.names[i].clone(), e));
                },
            }
        }
        Ok(out)
    }

    /// Decodes a record from its entries, in any order: each entry fills
    /// the field of its key, and entries whose key names no field are
    /// skipped. Fails when a field has no entry or two, or when its entry
    /// does not decode.
    pub fn decode_record<P>(&self, codec: &Codec, entries: Vec<(String, WireRead<P>)>) -> (r: Result<
        Vec<FieldValue<P>>,
        RecordError,
    >)
        requires
            self.wf(),
            codec.wf(),
        ensures
            match r {
                Ok(vs) => vs@.len() == self.spec_len() && forall|i: int|
                    0 <= i < self.spec_len() ==> #[trigger] decoded_entry(codec@, self@, entries@, i, vs@[i]@),
                Err(RecordError::MissingField(name)) => exists|i: int|
                    0 <= i < self.spec_len() && name@ == self@.names[i] && unclaimed(
                        self@.names,
                        entries@,
                        0,
                        i,
                    ),
                Err(RecordError::DuplicateField(name)) => exists|i: int, k1: int, k2: int|
                    0 <= i < self.spec_len() && name@ == self@.names[i] && 0 <= k1 < entries@.len() && 0
                        <= k2 < entries@.len() && k1 != k2 && owner(self@.names, entry_key(entries@[k1]))
                        == Some(i) && owner(self@.names, entry_key(entries@[k2])) == Some(i),
                Err(RecordError::Field(name, e)) => exists|i: int, k: int|
                    0 <= i < self.spec_len() && name@ == self@.names[i] && 0 <= k < entries@.len()
                        && owner(self@.names, entry_key(entries@[k])) == Some(i) && decoded_field(
                        codec@,
                        self@.categories[i],
                        entries@[k].1@,
                    ) == Err::<FieldValueView<P>, _>(e),
                Err(RecordError::FieldCount) => false,
            },
    {
        let n = self.names.len();
        assert(n == self.spec_len());
        let ghost es = entries@;
        let ghost names = self@.names;
        let mut slots: Vec<Option<FieldValue<P>>> = Vec::new();
        while slots.len() < n
            invariant
                slots@.len() <= n,
                forall|i: int| 0 <= i < slots@.len() ==> slots@[i] is None,
            decreases n - slots@.len(),
        {
            slots.push(None);
        }
        let mut rest = entries;
        while rest.len() > 0
            invariant
                self.wf(),
                codec.wf(),
                names == self@.names,
                n == self.spec_len(),
                slots@.len() == n,
                es == entries@,
                rest@.len() <= es.len(),
                rest@ == es.take(rest@.len() as int),
                forall|i: int|
                    0 <= i < n ==> ((#[trigger] slots@[i]) is None <==> unclaimed(
                        names,
                        es,
                        rest@.len() as int,
                        i,
                    )),
                forall|i: int|
                    0 <= i < n && (#[trigger] slots@[i]) is Some ==> exists|k: int|
                        claimed_once(names, es, rest@.len() as int, i, k) && decoded_field(
                            codec@,
                            self@.categories[i],
                            es[k].1@,
                        ) == Ok::<_, FieldError>(slots@[i]->Some_0@),
            decreases rest@.len(),
        {
            let ghost lo = rest@.len() as int;
            let (key, wire) = rest.pop().unwrap();
            let ghost k = rest@.len() as int;
            assert(es[k] == (key, wire));
            assert(rest@ =~= es.take(rest@.len() as int));
            let ghost old_slots = slots@;
            match self.field_index(&key) {
                None => {
                    proof {
                        assert forall|i: int| 0 <= i < n implies ((#[trigger] slots@[i]) is None <==> unclaimed(names, es, k, i)) by {
                            lemma_step_other(names, es, lo, i);
                        }
                        assert forall|i: int| 0 <= i < n && (#[trigger] slots@[i]) is Some implies exists|k1: int|
                            claimed_once(names, es, k, i, k1) && decoded_field(
                                codec@,
                                self@.categories[i],
                                es[k1].1@,
                            ) == Ok::<_, FieldError>(slots@[i]->Some_0@) by {
                            let k1 = choose|k1: int|
                                claimed_once(names, es, lo, i, k1) && decoded_field(
                                    codec@,
                                    self@.categories[i],
                                    es[k1].1@,
                                ) == Ok::<_, FieldError>(slots@[i]->Some_0@);
                            lemma_step_other(names, es, lo, i);
                            lemma_claimed_step(names, es, lo, i, k1);
                        }
                    }
                },
                Some(j) => {
                    if slots[j].is_some() {
                        proof {
                            let i = j as int;
                            let k1 = choose|k1: int|
                                claimed_once(names, es, lo, i, k1) && decoded_field(
                                    codec@,
                                    self@.categories[i],
                                    es[k1].1@,
                                ) == Ok::<_, FieldError>(slots@[i]->Some_0@);
                            assert(self.names@[i]@ == self@.names[i]);
                            assert(owner(names, entry_key(es[k1])) == Some(i));
                            assert(owner(names, entry_key(es[k])) == Some(i));
                        }
                        return Err(RecordError::DuplicateField(self.names[j].clone()));
                    }
                    match decode_field(codec, self.categories[j], wire) {
                        Ok(v) => {
                            slots[j] = Some(v);
                            proof {
                                assert(slots@ == old_slots.update(j as int, Some(v)));
                                assert(unclaimed(names, es, lo, j as int));
                                lemma_claim_new(names, es, lo, j as int);
                                assert forall|i: int| 0 <= i < n implies ((#[trigger] slots@[i]) is None <==> unclaimed(names, es, k, i)) by {
                                    if i != j {
                                        lemma_step_other(names, es, lo, i);
                                    } else {
                                        assert(!unclaimed(names, es, k, i));
                                    }
                                }
                                assert forall|i: int| 0 <= i < n && (#[trigger] slots@[i]) is Some implies exists|k1: int|
                                    claimed_once(names, es, k, i, k1) && decoded_field(
                                        codec@,
                                        self@.categories[i],
                                        es[k1].1@,
                                    ) == Ok::<_, FieldError>(slots@[i]->Some_0@) by {
                                    if i != j {
                                        let k1 = choose|k1: int|
                                            claimed_once(names, es, lo, i, k1) && decoded_field(
                                                codec@,
                                                self@.categories[i],
                                                es[k1].1@,
                                            ) == Ok::<_, FieldError>(old_slots[i]->Some_0@);
                                        lemma_step_other(names, es, lo, i);
                                        lemma_claimed_step(names, es, lo, i, k1);
                                    } else {
                                        assert(claimed_once(names, es, k, i, k));
                                    }
                                }
                            }
                        },
                        Err(e) => {
                            assert(self.names@[j as int]@ == self@.names[j as int]);
                            return Err(RecordError::Field(self.names[j].clone(), e));
                        },
                    }
                },
            }
        }
        let mut i: usize = 0;
        while i < n
            invariant
                n == self.spec_len(),
                names == self@.names,
                es == entries@,
                slots@.len() == n,
                i <= n,
                forall|t: int| 0 <= t < i ==> (#[trigger] slots@[t]) is Some,
                forall|t: int| 0 <= t < n ==> ((#[trigger] slots@[t]) is None <==> unclaimed(names, es, 0, t)),
                forall|t: int|
                    0 <= t < n && (#[trigger] slots@[t]) is Some ==> exists|k: int|
                        claimed_once(names, es, 0, t, k) && decoded_field(
                            codec@,
                            self@.categories[t],
                            es[k].1@,
                        ) == Ok::<_, FieldError>(slots@[t]->Some_0@),
            decreases n - i,
        {
            if slots[i].is_none() {
                assert(self.names@[i as int]@ == self@.names[i as int]);
                return Err(RecordError::MissingField(self.names[i].clone()));
            }
            i = i + 1;
        }
        let ghost full = slots@;
        let mut back = reversed(slots);
        let mut out: Vec<FieldValue<P>> = Vec::new();
        while back.len() > 0
            invariant
                full.len() == n,
                n == self.spec_len(),
                names == self@.names,
                es == entries@,
                forall|t: int|
                    0 <= t < n && (#[trigger] full[t]) is Some ==> exists|k: int|
                        claimed_once(names, es, 0, t, k) && decoded_field(
                            codec@,
                            self@.categories[t],
                            es[k].1@,
                        ) == Ok::<_, FieldError>(full[t]->Some_0@),

                back@.len() + out@.len() == n,
                forall|t: int| 0 <= t < back@.len() ==> back@[t] == full[n - 1 - t],
                forall|t: int| 0 <= t < n ==> (#[trigger] full[t]) is Some,
                forall|t: int| 0 <= t < out@.len() ==> Some(out@[t]) == full[t],
            decreases back@.len(),
        {
            let t = out.len();
            match back.pop().unwrap() {
                Some(v) => out.push(v),
                None => {
                    assert(full[t as int] is Some);
                    return Err(RecordError::FieldCount);
                },
            }
        }
        assert forall|i: int| 0 <= i < n implies #[trigger] decoded_entry(codec@, self@, es, i, out@[i]@) by {
            assert(full[i] is Some);
            assert(Some(out@[i]) == full[i]);
        }
        assert(out@.len() == n);
        Ok(out)
    }
}

/// Field `i` holds `v`: exactly one entry fills it, and its wire value
/// decodes to `v` under the field's category.
pub open spec fn decoded_entry<P>(
    c: CodecView,
    s: RecordSchemaView,
    es: Seq<(String, WireRead<P>)>,
    i: int,
    v: FieldValueView<P>,
) -> bool {
    exists|k: int|
        claimed_once(s.names, es, 0, i, k) && decoded_field(c, s.categories[i], es[k].1@) == Ok::<
            _,
            FieldError,
        >(v)
}

/// No entry from `lo` on fills field `i`.
pub open spec fn unclaimed<P>(names: Seq<Seq<char>>, es: Seq<(String, WireRead<P>)>, lo: int, i: int) -> bool {
    forall|k: int| lo <= k < es.len() ==> owner(names, entry_key(#[trigger] es[k])) != Some(i)
}

/// Entry `k`, from `lo` on, is the only one that fills field `i`.
pub open spec fn claimed_once<P>(
    names: Seq<Seq<char>>,
    es: Seq<(String, WireRead<P>)>,
    lo: int,
    i: int,
    k: int,
) -> bool {
    &&& lo <= k < es.len()
    &&& owner(names, entry_key(es[k])) == Some(i)
    &&& forall|k2: int|
        lo <= k2 < es.len() && k2 != k ==> owner(names, entry_key(#[trigger] es[k2])) != Some(i)
}

/// Taking in an entry that does not fill field `i` leaves `i` as it was.
proof fn lemma_step_other<P>(names: Seq<Seq<char>>, es: Seq<(String, WireRead<P>)>, lo: int, i: int)
    requires
        0 < lo <= es.len(),
        owner(names, entry_key(es[lo - 1])) != Some(i),
    ensures
        unclaimed(names, es, lo - 1, i) == unclaimed(names, es, lo, i),
{
    if unclaimed(names, es, lo, i) {
        assert forall|k: int| lo - 1 <= k < es.len() implies owner(names, entry_key(#[trigger] es[k])) != Some(i) by {
            if k >= lo {
                assert(owner(names, entry_key(es[k])) != Some(i));
            }
        }
    }
}

/// A sole claim from `lo` on stays sole when an entry that does not fill
/// the field is taken in.
proof fn lemma_claimed_step<P>(names: Seq<Seq<char>>, es: Seq<(String, WireRead<P>)>, lo: int, i: int, k: int)
    requires
        0 < lo <= es.len(),
        owner(names, entry_key(es[lo - 1])) != Some(i),
        claimed_once(names, es, lo, i, k),
    ensures
        claimed_once(names, es, lo - 1, i, k),
{
}

/// An entry that fills a field that no later entry fills is its sole claim.
proof fn lemma_claim_new<P>(names: Seq<Seq<char>>, es: Seq<(String, WireRead<P>)>, lo: int, i: int)
    requires
        0 < lo <= es.len(),
        owner(names, entry_key(es[lo - 1])) == Some(i),
        unclaimed(names, es, lo, i),
    ensures
        claimed_once(names, es, lo - 1, i, lo - 1),
        !unclaimed(names, es, lo - 1, i),
{
}

/// Where a prefix of the names has an owner for `key`, it is the owner in
/// the whole.
proof fn lemma_owner_prefix(names: Seq<Seq<char>>, key: Seq<char>, k: int)
    requires
        0 <= k <= names.len(),
        owner(names.take(k), key) is Some,
    ensures
        owner(names, key) == owner(names.take(k), key),
    decreases names.len() - k,
{
    if k < names.len() {
        assert(names.take(k + 1).drop_last() =~= names.take(k));
        lemma_owner_prefix(names, key, k + 1);
    } else {
        assert(names.take(k) =~= names);
    }
}

} // verus!
