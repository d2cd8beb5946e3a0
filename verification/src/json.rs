//! The library's JSON value model. Payload fields, attribute projections and
//! metadata objects are carried as [`JsonVal`] trees; contracts speak of the
//! mathematical shape [`JsonData`]. Objects keep insertion order.
//!
//! A JSON number representable as a signed 64-bit integer is held as `Int`;
//! any other number (fractional, oversized) keeps its decimal rendering as
//! `Num` text, so the model never holds a floating-point value.

use vstd::prelude::*;

use serde_json::Value;

use crate::text::str_eq;

verus! {

/// The mathematical shape of a JSON value.
pub enum JsonData {
    Null,
    Bool(bool),
    Int(int),
    Num(Seq<char>),
    Str(Seq<char>),
    Arr(Seq<JsonData>),
    Obj(Seq<(Seq<char>, JsonData)>),
}

/// A JSON value as the library carries it.
pub enum JsonVal {
    Null,
    Bool(bool),
    Int(i64),
    Num(String),
    Str(String),
    Arr(Vec<JsonVal>),
    Obj(Vec<(String, JsonVal)>),
}

/// The shape of a JSON value.
pub open spec fn json_view(v: JsonVal) -> JsonData
    decreases v,
{
    match v {
        JsonVal::Null => JsonData::Null,
        JsonVal::Bool(b) => JsonData::Bool(b),
        JsonVal::Int(n) => JsonData::Int(n as int),
        JsonVal::Num(t) => JsonData::Num(t@),
        JsonVal::Str(t) => JsonData::Str(t@),
        JsonVal::Arr(items) => JsonData::Arr(json_vec_view(items)),
        JsonVal::Obj(entries) => JsonData::Obj(json_entry_vec_view(entries)),
    }
}

/// The shapes of the elements of a JSON array.
pub open spec fn json_vec_view(items: Vec<JsonVal>) -> Seq<JsonData>
    decreases items,
{
    json_seq_view(items@)
}

/// The shapes of a sequence of JSON values, element by element.
pub open spec fn json_seq_view(s: Seq<JsonVal>) -> Seq<JsonData>
    decreases s,
{
    if s.len() == 0 {
        Seq::empty()
    } else {
        seq![json_view(s.first())] + json_seq_view(s.drop_first())
    }
}

/// The shapes of the entries of a JSON object.
pub open spec fn json_entry_vec_view(entries: Vec<(String, JsonVal)>) -> Seq<
    (Seq<char>, JsonData),
>
    decreases entries,
{
    json_entry_seq_view(entries@)
}

/// The shapes of a sequence of object entries, entry by entry.
pub open spec fn json_entry_seq_view(s: Seq<(String, JsonVal)>) -> Seq<(Seq<char>, JsonData)>
    decreases s,
{
    if s.len() == 0 {
        Seq::empty()
    } else {
        seq![(s.first().0@, json_view(s.first().1))] + json_entry_seq_view(s.drop_first())
    }
}

/// The sequence view acts element-wise.
pub broadcast proof fn lemma_json_seq_view(s: Seq<JsonVal>)
    ensures
        (#[trigger] json_seq_view(s)).len() == s.len(),
        forall|i: int| 0 <= i < s.len() ==> json_seq_view(s)[i] == json_view(s[i]),
    decreases s.len(),
{
    if s.len() > 0 {
        lemma_json_seq_view(s.drop_first());
    }
}

/// The entry view acts entry-wise.
pub broadcast proof fn lemma_json_entry_seq_view(s: Seq<(String, JsonVal)>)
    ensures
        (#[trigger] json_entry_seq_view(s)).len() == s.len(),
        forall|i: int| 0 <= i < s.len()
            ==> json_entry_seq_view(s)[i] == (s[i].0@, json_view(s[i].1)),
    decreases s.len(),
{
    if s.len() > 0 {
        lemma_json_entry_seq_view(s.drop_first());
    }
}

impl View for JsonVal {
    type V = JsonData;

    open spec fn view(&self) -> JsonData {
        json_view(*self)
    }
}

impl Clone for JsonVal {
    /// A clone denotes the same JSON value.
    fn clone(&self) -> (r: Self)
        ensures
            r@ == self@,
        decreases self,
    {
        broadcast use lemma_json_seq_view, lemma_json_entry_seq_view;

        match self {
            JsonVal::Null => JsonVal::Null,
            JsonVal::Bool(b) => JsonVal::Bool(*b),
            JsonVal::Int(n) => JsonVal::Int(*n),
            JsonVal::Num(t) => JsonVal::Num(t.clone()),
            JsonVal::Str(t) => JsonVal::Str(t.clone()),
            JsonVal::Arr(items) => {
                let mut out: Vec<JsonVal> = Vec::new();
                let n = items.len();
                let mut i: usize = 0;
                while i < n
                    invariant
                        0 <= i <= n,
                        n == items@.len(),
                        *self == JsonVal::Arr(*items),
                        out@.len() == i,
                        forall|j: int| 0 <= j < i ==> json_view(out@[j]) == json_view(items@[j]),
                    decreases n - i,
                {
                    proof {
                        assert(*self is Arr && self->Arr_0 == *items);
                        assert(decreases_to!(*self => self->Arr_0));
                        assert(decreases_to!(*items => items@));
                        assert(decreases_to!(items@ => items@[i as int]));
                    }
                    let c = items[i].clone();
                    out.push(c);
                    i = i + 1;
                }
                proof {
                    assert(json_seq_view(out@) =~= json_seq_view(items@));
                }
                JsonVal::Arr(out)
            },
            JsonVal::Obj(entries) => {
                let mut out: Vec<(String, JsonVal)> = Vec::new();
                let n = entries.len();
                let mut i: usize = 0;
                while i < n
                    invariant
                        0 <= i <= n,
                        n == entries@.len(),
                        *self == JsonVal::Obj(*entries),
                        out@.len() == i,
                        forall|j: int| 0 <= j < i
                            ==> out@[j].0@ == entries@[j].0@
                                && json_view(out@[j].1) == json_view(entries@[j].1),
                    decreases n - i,
                {
                    proof {
                        assert(*self is Obj && self->Obj_0 == *entries);
                        assert(decreases_to!(*self => self->Obj_0));
                        assert(decreases_to!(*entries => entries@));
                        assert(decreases_to!(entries@ => entries@[i as int]));
                        assert(decreases_to!(entries@[i as int] => entries@[i as int].1));
                    }
                    let k = entries[i].0.clone();
                    let v = entries[i].1.clone();
                    out.push((k, v));
                    i = i + 1;
                }
                proof {
                    assert(json_entry_seq_view(out@) =~= json_entry_seq_view(entries@));
                }
                JsonVal::Obj(out)
            },
        }
    }
}

// --- object entries -----------------------------------------------------

/// The value under `key`: the first entry with that key, if any.
pub open spec fn obj_lookup(entries: Seq<(Seq<char>, JsonData)>, key: Seq<char>) -> Option<
    JsonData,
>
    decreases entries.len(),
{
    if entries.len() == 0 {
        None
    } else if entries.first().0 == key {
        Some(entries.first().1)
    } else {
        obj_lookup(entries.drop_first(), key)
    }
}

/// Entry insertion as an object mutation: an existing key keeps its position
/// and takes the new value; a new key is appended.
pub open spec fn obj_insert(
    entries: Seq<(Seq<char>, JsonData)>,
    key: Seq<char>,
    value: JsonData,
) -> Seq<(Seq<char>, JsonData)>
    decreases entries.len(),
{
    if entries.len() == 0 {
        seq![(key, value)]
    } else if entries.first().0 == key {
        seq![(key, value)] + entries.drop_first()
    } else {
        seq![entries.first()] + obj_insert(entries.drop_first(), key, value)
    }
}

/// Merging object `b` into object `a`: each entry of `b` inserted in order.
pub open spec fn obj_merge(
    a: Seq<(Seq<char>, JsonData)>,
    b: Seq<(Seq<char>, JsonData)>,
) -> Seq<(Seq<char>, JsonData)>
    decreases b.len(),
{
    if b.len() == 0 {
        a
    } else {
        obj_merge(obj_insert(a, b.first().0, b.first().1), b.drop_first())
    }
}

proof fn lemma_obj_insert_found(
    e: Seq<(Seq<char>, JsonData)>,
    key: Seq<char>,
    value: JsonData,
    i: int,
)
    requires
        0 <= i < e.len(),
        e[i].0 == key,
        forall|j: int| 0 <= j < i ==> #[trigger] e[j].0 != key,
    ensures
        obj_insert(e, key, value) == e.update(i, (key, value)),
    decreases i,
{
    if i == 0 {
        assert(obj_insert(e, key, value) =~= e.update(0, (key, value)));
    } else {
        lemma_obj_insert_found(e.drop_first(), key, value, i - 1);
        assert(e.drop_first().update(i - 1, (key, value)) =~= e.update(
            i,
            (key, value),
        ).drop_first());
        assert(obj_insert(e, key, value) =~= e.update(i, (key, value)));
    }
}

proof fn lemma_obj_insert_absent(e: Seq<(Seq<char>, JsonData)>, key: Seq<char>, value: JsonData)
    requires
        forall|j: int| 0 <= j < e.len() ==> #[trigger] e[j].0 != key,
    ensures
        obj_insert(e, key, value) == e.push((key, value)),
    decreases e.len(),
{
    if e.len() > 0 {
        lemma_obj_insert_absent(e.drop_first(), key, value);
        assert(obj_insert(e, key, value) =~= e.push((key, value)));
    } else {
        assert(obj_insert(e, key, value) =~= e.push((key, value)));
    }
}

/// Inserts into an entry vector: replaces the value of an existing key in
/// place, else appends.
pub fn entries_insert(entries: &mut Vec<(String, JsonVal)>, key: String, value: JsonVal)
    ensures
        json_entry_seq_view(final(entries)@) == obj_insert(
            json_entry_seq_view(old(entries)@),
            key@,
            value@,
        ),
{
    broadcast use lemma_json_entry_seq_view;

    let n = entries.len();
    let mut i: usize = 0;
    while i < n
        invariant
            0 <= i <= n,
            n == entries@.len(),
            entries@ == old(entries)@,
            forall|j: int| 0 <= j < i ==> #[trigger] entries@[j].0@ != key@,
        decreases n - i,
    {
        proof {
            lemma_json_entry_seq_view(entries@);
        }
        if str_eq(entries[i].0.as_str(), key.as_str()) {
            let ghost e0 = json_entry_seq_view(entries@);
            let ghost v0 = entries@;
            proof {
                lemma_obj_insert_found(e0, key@, value@, i as int);
            }
            entries.set(i, (key, value));
            proof {
                lemma_json_entry_seq_view(entries@);
                assert(entries@ =~= v0.update(i as int, (key, value)));
                assert(json_entry_seq_view(entries@) =~= e0.update(i as int, (key@, value@)));
                assert(json_entry_seq_view(entries@) == obj_insert(
                    json_entry_seq_view(old(entries)@), key@, value@));
            }
            return;
        }
        i = i + 1;
    }
    let ghost e0 = json_entry_seq_view(entries@);
    let ghost v0 = entries@;
    proof {
        lemma_json_entry_seq_view(v0);
        lemma_obj_insert_absent(e0, key@, value@);
    }
    entries.push((key, value));
    proof {
        lemma_json_entry_seq_view(entries@);
        assert(json_entry_seq_view(entries@) =~= e0.push((key@, value@)));
    }
}

/// Looks a key up in an entry vector.
pub fn entries_get<'a>(entries: &'a Vec<(String, JsonVal)>, key: &str) -> (r: Option<
    &'a JsonVal,
>)
    ensures
        match r {
            Some(v) => obj_lookup(json_entry_seq_view(entries@), key@) == Some(v@),
            None => obj_lookup(json_entry_seq_view(entries@), key@) is None,
        },
{
    broadcast use lemma_json_entry_seq_view;

    let ghost e = json_entry_seq_view(entries@);
    proof {
        assert(e.skip(0) =~= e);
    }
    let n = entries.len();
    let mut i: usize = 0;
    while i < n
        invariant
            0 <= i <= n,
            n == entries@.len(),
            e == json_entry_seq_view(entries@),
            obj_lookup(e, key@) == obj_lookup(e.skip(i as int), key@),
        decreases n - i,
    {
        proof {
            lemma_json_entry_seq_view(entries@);
            assert(e.skip(i as int).first() == e[i as int]);
        }
        if str_eq(entries[i].0.as_str(), key) {
            return Some(&entries[i].1);
        }
        proof {
            assert(e.skip(i as int).drop_first() =~= e.skip(i + 1));
        }
        i = i + 1;
    }
    proof {
        lemma_json_entry_seq_view(entries@);
        assert(e.skip(n as int) =~= Seq::empty());
    }
    None
}

impl JsonVal {
    /// The value under `key` when this value is an object holding it.
    pub open spec fn spec_get(self, key: Seq<char>) -> Option<JsonData> {
        match self@ {
            JsonData::Obj(e) => obj_lookup(e, key),
            _ => None,
        }
    }

    /// Member lookup: the first entry under `key` of an object; `None` on
    /// any other shape.
    pub fn get<'a>(&'a self, key: &str) -> (r: Option<&'a JsonVal>)
        ensures
            match r {
                Some(v) => self.spec_get(key@) == Some(v@),
                None => self.spec_get(key@) is None,
            },
    {
        match self {
            JsonVal::Obj(entries) => entries_get(entries, key),
            _ => None,
        }
    }

    /// The integer this value holds, when it is an `Int`.
    pub fn as_int(&self) -> (r: Option<i64>)
        ensures
            match r {
                Some(n) => self@ == JsonData::Int(n as int),
                None => !(self@ is Int),
            },
    {
        match self {
            JsonVal::Int(n) => Some(*n),
            _ => None,
        }
    }

    /// The empty JSON object.
    pub fn empty_object() -> (r: JsonVal)
        ensures
            r@ == JsonData::Obj(Seq::empty()),
    {
        let r = JsonVal::Obj(Vec::new());
        proof {
            assert(json_entry_seq_view(Seq::empty()) =~= Seq::empty());
        }
        r
    }
}

// --- parsing JSON text (serde_json) -------------------------------------

#[verifier::external_type_specification]
#[verifier::external_body]
pub struct ExSerdeValue(Value);

/// What `serde_json::from_str` yields on a text, carried into the library's
/// JSON model: `None` exactly when the text is not valid JSON. The parsed
/// value depends on the text alone.
pub uninterp spec fn json_text_value(s: Seq<char>) -> Option<JsonData>;

/// Relies on serde_json::from_str for JSON text parsing; the body rebuilds
/// the parsed tree as the library's JSON value, one constructor for one.
#[verifier::external_body]
pub fn parse_json_text(s: &str) -> (r: Option<JsonVal>)
    ensures
        match r {
            Some(v) => json_text_value(s@) == Some(v@),
            None => json_text_value(s@) is None,
        },
{
    serde_json::from_str::<Value>(s).ok().map(json_of_serde)
}

/// Conversion helper for [`parse_json_text`]: rebuilds a serde_json tree as
/// the library's JSON value, variant by variant. A number representable as
/// `i64` becomes `Int`; any other number keeps serde_json's decimal
/// rendering as `Num` text.
#[verifier::external_body]
fn json_of_serde(v: Value) -> JsonVal {
    match v {
        Value::Null => JsonVal::Null,
        Value::Bool(b) => JsonVal::Bool(b),
        Value::Number(n) => match n.as_i64() {
            Some(i) => JsonVal::Int(i),
            None => JsonVal::Num(n.to_string()),
        },
        Value::String(t) => JsonVal::Str(t),
        Value::Array(a) => JsonVal::Arr(a.into_iter().map(json_of_serde).collect()),
        Value::Object(o) => JsonVal::Obj(
            o.into_iter().map(|(k, x)| (k, json_of_serde(x))).collect(),
        ),
    }
}

} // verus!
