//! The OTLP trace-export model and the attribute extractor: key/value
//! attribute lists projected into typed fields and JSON objects.

use vstd::prelude::*;

use crate::codec::int_literal_value;
use crate::json::{
    JsonData, JsonVal, json_entry_seq_view, json_text_value, obj_insert, obj_lookup,
    parse_json_text, entries_insert,
};
use crate::text::{has_prefix, str_eq, str_chars, string_from_chars};

verus! {

/// An OTLP attribute value: a tagged variant over string, integer
/// (transmitted as decimal text), double, bool and nested array.
///
/// A double carries the decimal rendering of its value as text, or `None`
/// when the value is not finite, so the model holds no floating-point value.
pub enum OtelValue {
    Str(String),
    Int(String),
    Double(Option<String>),
    Bool(bool),
    Arr(Vec<OtelValue>),
}

/// One `{key, value}` attribute.
pub struct OtelKeyValue {
    pub key: String,
    pub value: Option<OtelValue>,
}

/// One OTLP span, with the fields the mapping reads.
pub struct OtelSpan {
    pub trace_id: String,
    pub span_id: String,
    pub parent_span_id: Option<String>,
    pub name: String,
    pub start_time_unix_nano: Option<String>,
    pub end_time_unix_nano: Option<String>,
    pub attributes: Vec<OtelKeyValue>,
}

/// The spans of one instrumentation scope.
pub struct OtelScopeSpans {
    pub spans: Vec<OtelSpan>,
}

/// The resource of a resource-spans envelope.
pub struct OtelResource {
    pub attributes: Vec<OtelKeyValue>,
}

/// One resource-spans envelope.
pub struct OtelResourceSpans {
    pub resource: Option<OtelResource>,
    pub scope_spans: Vec<OtelScopeSpans>,
}

/// A decoded OTLP trace-export request.
pub struct OtelExport {
    pub resource_spans: Vec<OtelResourceSpans>,
}

// --- value to JSON ------------------------------------------------------

/// The JSON shape of an attribute value: lossless, with integer text
/// promoted to a JSON integer when it fits a signed 64-bit value, and a
/// non-finite double becoming JSON null.
pub open spec fn spec_as_json(v: OtelValue) -> JsonData
    decreases v,
{
    match v {
        OtelValue::Str(t) => JsonData::Str(t@),
        OtelValue::Int(t) => {
            let lit = int_literal_value(t@);
            if lit is Some && i64::MIN <= lit.unwrap() <= i64::MAX {
                JsonData::Int(lit.unwrap())
            } else {
                JsonData::Str(t@)
            }
        },
        OtelValue::Double(d) => match d {
            Some(t) => JsonData::Num(t@),
            None => JsonData::Null,
        },
        OtelValue::Bool(b) => JsonData::Bool(b),
        OtelValue::Arr(items) => JsonData::Arr(spec_as_json_vec(items)),
    }
}

/// The JSON shapes of an attribute array's elements.
pub open spec fn spec_as_json_vec(items: Vec<OtelValue>) -> Seq<JsonData>
    decreases items,
{
    spec_as_json_seq(items@)
}

/// The JSON shapes of a sequence of attribute values.
pub open spec fn spec_as_json_seq(s: Seq<OtelValue>) -> Seq<JsonData>
    decreases s,
{
    if s.len() == 0 {
        Seq::empty()
    } else {
        seq![spec_as_json(s.first())] + spec_as_json_seq(s.drop_first())
    }
}

pub broadcast proof fn lemma_spec_as_json_seq(s: Seq<OtelValue>)
    ensures
        (#[trigger] spec_as_json_seq(s)).len() == s.len(),
        forall|i: int| 0 <= i < s.len() ==> spec_as_json_seq(s)[i] == spec_as_json(s[i]),
    decreases s.len(),
{
    if s.len() > 0 {
        lemma_spec_as_json_seq(s.drop_first());
    }
}

/// The JSON shape of an optional attribute value; an absent value is null.
pub open spec fn spec_value_json(v: Option<OtelValue>) -> JsonData {
    match v {
        Some(x) => spec_as_json(x),
        None => JsonData::Null,
    }
}

/// Converts an attribute value to JSON, losslessly: integer text becomes a
/// JSON integer when it fits 64 bits, a non-finite double becomes null.
pub fn as_json(v: &OtelValue) -> (r: JsonVal)
    ensures
        r@ == spec_as_json(*v),
    decreases v,
{
    broadcast use crate::json::lemma_json_seq_view, lemma_spec_as_json_seq;

    match v {
        OtelValue::Str(t) => JsonVal::Str(t.clone()),
        OtelValue::Int(t) => {
            let chars = str_chars(t.as_str());
            match crate::codec::parse_i64_chars(&chars) {
                Some(n) => JsonVal::Int(n),
                None => JsonVal::Str(t.clone()),
            }
        },
        OtelValue::Double(d) => match d {
            Some(t) => JsonVal::Num(t.clone()),
            None => JsonVal::Null,
        },
        OtelValue::Bool(b) => JsonVal::Bool(*b),
        OtelValue::Arr(items) => {
            let mut out: Vec<JsonVal> = Vec::new();
            let n = items.len();
            let mut i: usize = 0;
            while i < n
                invariant
                    0 <= i <= n,
                    n == items@.len(),
                    *v == OtelValue::Arr(*items),
                    out@.len() == i,
                    forall|j: int| 0 <= j < i
                        ==> crate::json::json_view(out@[j]) == spec_as_json(items@[j]),
                decreases n - i,
            {
                proof {
                    assert(*v is Arr && v->Arr_0 == *items);
                    assert(decreases_to!(*v => v->Arr_0));
                    assert(decreases_to!(*items => items@));
                    assert(decreases_to!(items@ => items@[i as int]));
                }
                let c = as_json(&items[i]);
                out.push(c);
                i = i + 1;
            }
            proof {
                broadcast use crate::json::lemma_json_seq_view;

                assert(crate::json::json_seq_view(out@) =~= spec_as_json_seq(items@));
            }
            JsonVal::Arr(out)
        },
    }
}

// --- attribute lookup ---------------------------------------------------

/// The first attribute carrying `key`, if any.
pub open spec fn first_attr(attrs: Seq<OtelKeyValue>, key: Seq<char>) -> Option<OtelKeyValue>
    decreases attrs.len(),
{
    if attrs.len() == 0 {
        None
    } else if attrs.first().key@ == key {
        Some(attrs.first())
    } else {
        first_attr(attrs.drop_first(), key)
    }
}

/// The value of the first attribute carrying `key` with a string value,
/// else absent. A matching key whose value is not a string is passed over.
pub open spec fn attr_string(attrs: Seq<OtelKeyValue>, key: Seq<char>) -> Option<Seq<char>>
    decreases attrs.len(),
{
    if attrs.len() == 0 {
        None
    } else {
        match attrs.first().value {
            Some(OtelValue::Str(t)) => if attrs.first().key@ == key {
                Some(t@)
            } else {
                attr_string(attrs.drop_first(), key)
            },
            _ => attr_string(attrs.drop_first(), key),
        }
    }
}

fn find_attr<'a>(attrs: &'a Vec<OtelKeyValue>, key: &str) -> (r: Option<&'a OtelKeyValue>)
    ensures
        match r {
            Some(kv) => first_attr(attrs@, key@) == Some(*kv),
            None => first_attr(attrs@, key@) is None,
        },
{
    let ghost a = attrs@;
    proof {
        assert(a.skip(0) =~= a);
    }
    let n = attrs.len();
    let mut i: usize = 0;
    while i < n
        invariant
            0 <= i <= n,
            n == a.len(),
            a == attrs@,
            first_attr(a, key@) == first_attr(a.skip(i as int), key@),
        decreases n - i,
    {
        proof {
            assert(a.skip(i as int).first() == a[i as int]);
        }
        if str_eq(attrs[i].key.as_str(), key) {
            return Some(&attrs[i]);
        }
        proof {
            assert(a.skip(i as int).drop_first() =~= a.skip(i + 1));
        }
        i = i + 1;
    }
    proof {
        assert(a.skip(n as int) =~= Seq::empty());
    }
    None
}

/// Projects the first string-valued attribute under `key`.
pub fn get_string(attrs: &Vec<OtelKeyValue>, key: &str) -> (r: Option<String>)
    ensures
        match r {
            Some(t) => attr_string(attrs@, key@) == Some(t@),
            None => attr_string(attrs@, key@) is None,
        },
{
    let ghost a = attrs@;
    proof {
        assert(a.skip(0) =~= a);
    }
    let n = attrs.len();
    let mut i: usize = 0;
    while i < n
        invariant
            0 <= i <= n,
            n == a.len(),
            a == attrs@,
            attr_string(a, key@) == attr_string(a.skip(i as int), key@),
        decreases n - i,
    {
        proof {
            assert(a.skip(i as int).first() == a[i as int]);
            assert(a.skip(i as int).drop_first() =~= a.skip(i + 1));
        }
        let hit = match &attrs[i].value {
            Some(OtelValue::Str(_)) => str_eq(attrs[i].key.as_str(), key),
            _ => false,
        };
        if hit {
            match &attrs[i].value {
                Some(OtelValue::Str(t)) => {
                    return Some(t.clone());
                },
                _ => {},
            }
        }
        i = i + 1;
    }
    proof {
        assert(a.skip(n as int) =~= Seq::<OtelKeyValue>::empty());
    }
    None
}

/// The string elements of a value sequence, in order, non-strings dropped.
pub open spec fn string_items(s: Seq<OtelValue>) -> Seq<Seq<char>>
    decreases s.len(),
{
    if s.len() == 0 {
        Seq::empty()
    } else {
        let rest = string_items(s.drop_first());
        match s.first() {
            OtelValue::Str(t) => seq![t@] + rest,
            _ => rest,
        }
    }
}

/// The string-array value of the first attribute carrying `key`.
pub open spec fn attr_string_array(attrs: Seq<OtelKeyValue>, key: Seq<char>) -> Option<
    Seq<Seq<char>>,
> {
    match first_attr(attrs, key) {
        Some(kv) => match kv.value {
            Some(OtelValue::Arr(items)) => Some(string_items(items@)),
            _ => None,
        },
        None => None,
    }
}

/// The views of a string vector.
pub open spec fn string_vec_view(v: Seq<String>) -> Seq<Seq<char>> {
    Seq::new(v.len(), |i: int| v[i]@)
}

/// Projects the first attribute under `key` to an array of its string
/// elements, preserving order and dropping non-string items.
pub fn get_string_array(attrs: &Vec<OtelKeyValue>, key: &str) -> (r: Option<Vec<String>>)
    ensures
        match r {
            Some(v) => attr_string_array(attrs@, key@) == Some(string_vec_view(v@)),
            None => attr_string_array(attrs@, key@) is None,
        },
{
    let kv = match find_attr(attrs, key) {
        Some(kv) => kv,
        None => {
            return None;
        },
    };
    let items = match &kv.value {
        Some(OtelValue::Arr(items)) => items,
        _ => {
            return None;
        },
    };
    let mut out: Vec<String> = Vec::new();
    let n = items.len();
    let mut i: usize = 0;
    while i < n
        invariant
            0 <= i <= n,
            n == items@.len(),
            string_vec_view(out@) == string_items(items@.take(i as int)),
        decreases n - i,
    {
        proof {
            assert(items@.take(i + 1).drop_last() =~= items@.take(i as int));
        }
        match &items[i] {
            OtelValue::Str(t) => {
                out.push(t.clone());
                proof {
                    lemma_string_items_snoc(items@.take(i + 1));
                    assert(string_vec_view(out@) =~= string_items(items@.take(i + 1)));
                }
            },
            _ => {
                proof {
                    lemma_string_items_snoc(items@.take(i + 1));
                    assert(string_vec_view(out@) =~= string_items(items@.take(i + 1)));
                }
            },
        }
        i = i + 1;
    }
    proof {
        assert(items@.take(n as int) =~= items@);
    }
    Some(out)
}

/// Peeling the last element off a value sequence peels it off its string
/// items.
proof fn lemma_string_items_snoc(s: Seq<OtelValue>)
    requires
        s.len() > 0,
    ensures
        string_items(s) == match s.last() {
            OtelValue::Str(t) => string_items(s.drop_last()).push(t@),
            _ => string_items(s.drop_last()),
        },
    decreases s.len(),
{
    if s.len() == 1 {
        assert(s.drop_first() =~= Seq::empty());
        assert(s.drop_last() =~= Seq::empty());
        assert(s.first() == s.last());
        match s.last() {
            OtelValue::Str(t) => {
                assert(string_items(s) =~= string_items(s.drop_last()).push(t@));
            },
            _ => {},
        }
    } else {
        lemma_string_items_snoc(s.drop_first());
        assert(s.drop_first().drop_last() =~= s.drop_last().drop_first());
        assert(s.drop_first().last() == s.last());
        assert(s.drop_last().first() == s.first());
        match s.last() {
            OtelValue::Str(t) => {
                assert(string_items(s) =~= string_items(s.drop_last()).push(t@));
            },
            _ => {
                assert(string_items(s) =~= string_items(s.drop_last()));
            },
        }
    }
}

// --- attribute objects --------------------------------------------------

/// Folds attributes into a JSON object from `acc`: every key inserted with
/// its JSON value, later entries overwriting earlier ones in place.
pub open spec fn attrs_object_from(
    acc: Seq<(Seq<char>, JsonData)>,
    attrs: Seq<OtelKeyValue>,
) -> Seq<(Seq<char>, JsonData)>
    decreases attrs.len(),
{
    if attrs.len() == 0 {
        acc
    } else {
        attrs_object_from(
            obj_insert(acc, attrs.first().key@, spec_value_json(attrs.first().value)),
            attrs.drop_first(),
        )
    }
}

/// The JSON object of a whole attribute list.
pub open spec fn attrs_object(attrs: Seq<OtelKeyValue>) -> Seq<(Seq<char>, JsonData)> {
    attrs_object_from(Seq::empty(), attrs)
}

/// Renders an attribute list as a JSON object, key by key in order, an
/// absent value as null, a repeated key overwritten in place.
pub fn attributes_to_entries(attrs: &Vec<OtelKeyValue>) -> (r: Vec<(String, JsonVal)>)
    ensures
        json_entry_seq_view(r@) == attrs_object(attrs@),
{
    let ghost a = attrs@;
    let mut out: Vec<(String, JsonVal)> = Vec::new();
    proof {
        assert(a.skip(0) =~= a);
        assert(json_entry_seq_view(out@) =~= Seq::empty());
    }
    let n = attrs.len();
    let mut i: usize = 0;
    while i < n
        invariant
            0 <= i <= n,
            n == a.len(),
            a == attrs@,
            attrs_object(a) == attrs_object_from(json_entry_seq_view(out@), a.skip(i as int)),
        decreases n - i,
    {
        proof {
            assert(a.skip(i as int).first() == a[i as int]);
            assert(a.skip(i as int).drop_first() =~= a.skip(i + 1));
        }
        let kv = &attrs[i];
        let j = match &kv.value {
            Some(v) => as_json(v),
            None => JsonVal::Null,
        };
        entries_insert(&mut out, kv.key.clone(), j);
        i = i + 1;
    }
    proof {
        assert(a.skip(n as int) =~= Seq::empty());
    }
    out
}

/// Folds the prefixed attributes into a JSON object: every key with the
/// prefix and a non-empty suffix, and a present value, contributes
/// `suffix -> value`.
pub open spec fn prefixed_object_from(
    acc: Seq<(Seq<char>, JsonData)>,
    attrs: Seq<OtelKeyValue>,
    prefix: Seq<char>,
) -> Seq<(Seq<char>, JsonData)>
    decreases attrs.len(),
{
    if attrs.len() == 0 {
        acc
    } else {
        let kv = attrs.first();
        let acc2 = if has_prefix(kv.key@, prefix) && kv.key@.len() > prefix.len()
            && kv.value is Some {
            obj_insert(acc, kv.key@.skip(prefix.len() as int), spec_as_json(kv.value.unwrap()))
        } else {
            acc
        };
        prefixed_object_from(acc2, attrs.drop_first(), prefix)
    }
}

/// The JSON object of the attributes under a key prefix.
pub open spec fn prefixed_object(attrs: Seq<OtelKeyValue>, prefix: Seq<char>) -> Seq<
    (Seq<char>, JsonData),
> {
    prefixed_object_from(Seq::empty(), attrs, prefix)
}

/// Projects the attributes whose keys extend `prefix` by a non-empty suffix
/// into a JSON object keyed by the suffixes, in insertion order.
pub fn get_prefixed_entries(attrs: &Vec<OtelKeyValue>, prefix: &str) -> (r: Vec<
    (String, JsonVal),
>)
    ensures
        json_entry_seq_view(r@) == prefixed_object(attrs@, prefix@),
{
    let ghost a = attrs@;
    let prefix_chars = str_chars(prefix);
    let np = prefix_chars.len();
    let mut out: Vec<(String, JsonVal)> = Vec::new();
    proof {
        assert(a.skip(0) =~= a);
        assert(json_entry_seq_view(out@) =~= Seq::empty());
    }
    let n = attrs.len();
    let mut i: usize = 0;
    while i < n
        invariant
            0 <= i <= n,
            n == a.len(),
            a == attrs@,
            prefix_chars@ == prefix@,
            np == prefix@.len(),
            prefixed_object(a, prefix@) == prefixed_object_from(
                json_entry_seq_view(out@),
                a.skip(i as int),
                prefix@,
            ),
        decreases n - i,
    {
        proof {
            assert(a.skip(i as int).first() == a[i as int]);
            assert(a.skip(i as int).drop_first() =~= a.skip(i + 1));
        }
        let kv = &attrs[i];
        let key_chars = str_chars(kv.key.as_str());
        if crate::text::chars_have_prefix(&key_chars, &prefix_chars) && key_chars.len() > np {
            match &kv.value {
                Some(v) => {
                    let mut suffix_chars: Vec<char> = Vec::new();
                    let nk = key_chars.len();
                    let mut k: usize = np;
                    while k < nk
                        invariant
                            np <= k <= nk,
                            nk == key_chars@.len(),
                            suffix_chars@ == key_chars@.subrange(np as int, k as int),
                        decreases nk - k,
                    {
                        suffix_chars.push(key_chars[k]);
                        proof {
                            assert(suffix_chars@ =~= key_chars@.subrange(np as int, k + 1));
                        }
                        k = k + 1;
                    }
                    proof {
                        assert(suffix_chars@ =~= kv.key@.skip(np as int));
                    }
                    let suffix = string_from_chars(&suffix_chars);
                    let j = as_json(v);
                    entries_insert(&mut out, suffix, j);
                },
                None => {},
            }
        }
        i = i + 1;
    }
    proof {
        assert(a.skip(n as int) =~= Seq::empty());
    }
    out
}

// --- usage details ------------------------------------------------------

/// The integer under `key` of a JSON object; absent when the shape or the
/// field is not an integer.
pub open spec fn json_int_field(d: JsonData, key: Seq<char>) -> Option<int> {
    match d {
        JsonData::Obj(e) => match obj_lookup(e, key) {
            Some(JsonData::Int(n)) => Some(n),
            _ => None,
        },
        _ => None,
    }
}

/// The normalized usage object `{input, output, total}` with zeros for
/// missing fields.
pub open spec fn usage_object(
    prompt: Option<int>,
    completion: Option<int>,
    total: Option<int>,
) -> JsonData {
    JsonData::Obj(
        seq![
            ("input"@, JsonData::Int(opt_zero(prompt))),
            ("output"@, JsonData::Int(opt_zero(completion))),
            ("total"@, JsonData::Int(opt_zero(total))),
        ],
    )
}

/// The value, with zero for absent.
pub open spec fn opt_zero(v: Option<int>) -> int {
    match v {
        Some(n) => n,
        None => 0,
    }
}

/// Two optional integers denote the same value.
pub open spec fn opt_i64_is(a: Option<i64>, b: Option<int>) -> bool {
    match a {
        Some(n) => b == Some(n as int),
        None => b is None,
    }
}

/// The usage-details attribute parsed as JSON, when present and valid.
pub open spec fn usage_details_data(attrs: Seq<OtelKeyValue>) -> Option<JsonData> {
    match attr_string(attrs, "langfuse.observation.usage_details"@) {
        Some(t) => json_text_value(t),
        None => None,
    }
}

/// Reads the usage-details attribute: parses it as JSON and projects the
/// integer fields `promptTokens`, `completionTokens`, `totalTokens`, plus
/// the normalized `{input, output, total}` object with zero substitutions.
/// Everything is absent when the attribute is missing or not valid JSON.
/// Returned in the order completion, prompt, total, usage.
pub fn parse_usage_details(attrs: &Vec<OtelKeyValue>) -> (r: (
    Option<i64>,
    Option<i64>,
    Option<i64>,
    Option<JsonVal>,
))
    ensures
        ({
            match usage_details_data(attrs@) {
                Some(d) => {
                    let prompt = json_int_field(d, "promptTokens"@);
                    let completion = json_int_field(d, "completionTokens"@);
                    let total = json_int_field(d, "totalTokens"@);
                    opt_i64_is(r.0, completion) && opt_i64_is(r.1, prompt)
                        && opt_i64_is(r.2, total) && r.3 is Some
                        && r.3.unwrap()@ == usage_object(prompt, completion, total)
                },
                None => r.0 is None && r.1 is None && r.2 is None && r.3 is None,
            }
        }),
{
    let raw = match get_string(attrs, "langfuse.observation.usage_details") {
        Some(s) => s,
        None => {
            return (None, None, None, None);
        },
    };
    let parsed = match parse_json_text(raw.as_str()) {
        Some(v) => v,
        None => {
            return (None, None, None, None);
        },
    };
    let prompt = match parsed.get("promptTokens") {
        Some(v) => v.as_int(),
        None => None,
    };
    let completion = match parsed.get("completionTokens") {
        Some(v) => v.as_int(),
        None => None,
    };
    let total = match parsed.get("totalTokens") {
        Some(v) => v.as_int(),
        None => None,
    };
    let mut entries: Vec<(String, JsonVal)> = Vec::new();
    entries.push(("input".to_owned(), JsonVal::Int(unwrap_or_zero(prompt))));
    entries.push(("output".to_owned(), JsonVal::Int(unwrap_or_zero(completion))));
    entries.push(("total".to_owned(), JsonVal::Int(unwrap_or_zero(total))));
    let usage = JsonVal::Obj(entries);
    proof {
        broadcast use crate::json::lemma_json_entry_seq_view;

        let ghost d = usage_details_data(attrs@).unwrap();
        let ghost p = json_int_field(d, "promptTokens"@);
        let ghost c = json_int_field(d, "completionTokens"@);
        let ghost t = json_int_field(d, "totalTokens"@);
        assert(opt_i64_is(prompt, p));
        assert(opt_i64_is(completion, c));
        assert(opt_i64_is(total, t));
        assert(entries@.len() == 3);
        assert(json_entry_seq_view(entries@)[0] == ("input"@, JsonData::Int(opt_zero(p))));
        assert(json_entry_seq_view(entries@)[1] == ("output"@, JsonData::Int(opt_zero(c))));
        assert(json_entry_seq_view(entries@)[2] == ("total"@, JsonData::Int(opt_zero(t))));
        assert(usage@ is Obj);
        assert(usage@->Obj_0 =~= usage_object(p, c, t)->Obj_0);
    }
    (completion, prompt, total, Some(usage))
}

fn unwrap_or_zero(v: Option<i64>) -> (r: i64)
    ensures
        match v {
            Some(n) => r == n,
            None => r == 0,
        },
{
    match v {
        Some(n) => n,
        None => 0,
    }
}

} // verus!
