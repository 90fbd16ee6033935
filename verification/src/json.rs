//! The JSON values that the device sends and receives, held as plain data,
//! and the lookups the protocol makes in them (`v["key"]`, `as_str`,
//! `as_array`, assignment to a key), with serde_json's meaning: a missing
//! key, or a key looked up in something that is not an object, reads as
//! `null`. Text and bytes are parsed and written by serde_json.

use vstd::prelude::*;
use crate::text::text_eq;

verus! {

/// A JSON value. Numbers keep their JSON text; objects keep their entries in
/// order.
pub enum JsonValue {
    Null,
    Bool(bool),
    Number(String),
    Str(String),
    Array(Vec<JsonValue>),
    Object(Vec<(String, JsonValue)>),
}

/// The value stored under the first entry whose key is `key`.
pub open spec fn entry_lookup(entries: Seq<(String, JsonValue)>, key: Seq<char>) -> Option<JsonValue>
    decreases entries.len(),
{
    if entries.len() == 0 {
        None
    } else if entries[0].0@ == key {
        Some(entries[0].1)
    } else {
        entry_lookup(entries.drop_first(), key)
    }
}

/// `v[key]`: the value under `key` if `v` is an object that has it, else
/// `null`.
pub open spec fn field(v: JsonValue, key: Seq<char>) -> JsonValue {
    match v {
        JsonValue::Object(entries) => match entry_lookup(entries@, key) {
            Some(x) => x,
            None => JsonValue::Null,
        },
        _ => JsonValue::Null,
    }
}

/// `v.as_str()`: the text of a string value.
pub open spec fn as_text(v: JsonValue) -> Option<Seq<char>> {
    match v {
        JsonValue::Str(s) => Some(s@),
        _ => None,
    }
}

/// `v.as_array()`: the items of an array value.
pub open spec fn as_items(v: JsonValue) -> Option<Seq<JsonValue>> {
    match v {
        JsonValue::Array(items) => Some(items@),
        _ => None,
    }
}

/// Whether `v` is the string `s`.
pub open spec fn is_text(v: JsonValue, s: Seq<char>) -> bool {
    v matches JsonValue::Str(x) && x@ == s
}

/// Whether `v` is the number whose JSON text is `s`.
pub open spec fn is_number_text(v: JsonValue, s: Seq<char>) -> bool {
    v matches JsonValue::Number(x) && x@ == s
}

proof fn lemma_lookup_skip(entries: Seq<(String, JsonValue)>, key: Seq<char>, i: int)
    requires
        0 <= i <= entries.len(),
        forall|j: int| 0 <= j < i ==> (#[trigger] entries[j]).0@ != key,
    ensures
        entry_lookup(entries, key) == entry_lookup(entries.subrange(i, entries.len() as int), key),
    decreases i,
{
    if i > 0 {
        let rest = entries.drop_first();
        assert forall|j: int| 0 <= j < i - 1 implies (#[trigger] rest[j]).0@ != key by {
            assert(rest[j] == entries[j + 1]);
        }
        lemma_lookup_skip(rest, key, i - 1);
        assert(rest.subrange(i - 1, rest.len() as int) =~= entries.subrange(i, entries.len() as int));
    } else {
        assert(entries.subrange(0, entries.len() as int) =~= entries);
    }
}

impl JsonValue {
    /// Looks `key` up: `None` stands for serde_json's `null` of a missing
    /// key (or of a lookup in something that is not an object).
    pub fn get(&self, key: &str) -> (r: Option<&JsonValue>)
        ensures
            match r {
                Some(x) => *x == field(*self, key@),
                None => field(*self, key@) == JsonValue::Null,
            },
    {
        match self {
            JsonValue::Object(entries) => {
                let mut i: usize = 0;
                while i < entries.len()
                    invariant
                        *self == JsonValue::Object(*entries),
                        0 <= i <= entries@.len(),
                        forall|j: int| 0 <= j < i ==> (#[trigger] entries@[j]).0@ != key@,
                    decreases entries@.len() - i,
                {
                    if text_eq(entries[i].0.as_str(), key) {
                        proof {
                            lemma_lookup_skip(entries@, key@, i as int);
                            let rest = entries@.subrange(i as int, entries@.len() as int);
                            assert(rest[0] == entries@[i as int]);
                        }
                        return Some(&entries[i].1);
                    }
                    i = i + 1;
                }
                proof {
                    lemma_lookup_skip(entries@, key@, i as int);
                }
                None
            },
            _ => None,
        }
    }

    /// `as_str`: the text of a string value.
    pub fn as_str(&self) -> (r: Option<&String>)
        ensures
            match r {
                Some(s) => as_text(*self) == Some(s@),
                None => as_text(*self) is None,
            },
    {
        match self {
            JsonValue::Str(s) => Some(s),
            _ => None,
        }
    }

    /// `as_array`: the items of an array value.
    pub fn as_array(&self) -> (r: Option<&Vec<JsonValue>>)
        ensures
            match r {
                Some(items) => as_items(*self) == Some(items@),
                None => as_items(*self) is None,
            },
    {
        match self {
            JsonValue::Array(items) => Some(items),
            _ => None,
        }
    }
}

/// `v[key]` after `v[key] = value` on an object: the entry with that key
/// takes the new value, or a new entry is appended.
pub open spec fn entries_with(entries: Seq<(String, JsonValue)>, key: String, value: JsonValue) -> Seq<(String, JsonValue)>
    decreases entries.len(),
{
    if entries.len() == 0 {
        seq![(key, value)]
    } else if entries[0].0@ == key@ {
        entries.update(0, (entries[0].0, value))
    } else {
        seq![entries[0]] + entries_with(entries.drop_first(), key, value)
    }
}

impl JsonValue {
    /// `self[key] = value`, as serde_json assigns through an index: an
    /// object gets the key set, `null` turns into an object with the one
    /// entry. (serde_json panics on other values.)
    pub fn set_field(&mut self, key: String, value: JsonValue)
        requires
            *old(self) is Object || *old(self) is Null,
        ensures
            match *old(self) {
                JsonValue::Object(entries) => *final(self) matches JsonValue::Object(e) && e@ == entries_with(entries@, key, value),
                _ => *final(self) matches JsonValue::Object(e) && e@ == seq![(key, value)],
            },
    {
        let mut old_self = JsonValue::Null;
        std::mem::swap(&mut old_self, self);
        match old_self {
            JsonValue::Object(mut entries) => {
                let ghost e0 = entries@;
                let mut i: usize = 0;
                let mut found: bool = false;
                while i < entries.len() && !found
                    invariant
                        entries@ == e0,
                        0 <= i <= e0.len(),
                        found ==> i < e0.len() && e0[i as int].0@ == key@,
                        forall|j: int| 0 <= j < i ==> (#[trigger] e0[j]).0@ != key@,
                    decreases e0.len() - i + (if found { 0int } else { 1int }),
                {
                    if text_eq(entries[i].0.as_str(), key.as_str()) {
                        found = true;
                    } else {
                        i = i + 1;
                    }
                }
                if found {
                    let k = entries[i].0.clone();
                    entries.set(i, (k, value));
                    proof {
                        lemma_entries_with_found(e0, key, value, i as int);
                    }
                    assert(entries@ =~= entries_with(e0, key, value));
                } else {
                    entries.push((key, value));
                    proof {
                        lemma_entries_with_absent(e0, key, value);
                    }
                    assert(entries@ =~= entries_with(e0, key, value));
                }
                *self = JsonValue::Object(entries);
            },
            _ => {
                let mut entries: Vec<(String, JsonValue)> = Vec::new();
                entries.push((key, value));
                assert(entries@ =~= seq![(key, value)]);
                *self = JsonValue::Object(entries);
            },
        }
    }
}

proof fn lemma_entries_with_found(entries: Seq<(String, JsonValue)>, key: String, value: JsonValue, i: int)
    requires
        0 <= i < entries.len(),
        forall|j: int| 0 <= j < i ==> (#[trigger] entries[j]).0@ != key@,
        entries[i].0@ == key@,
    ensures
        entries_with(entries, key, value) == entries.update(i, (entries[i].0, value)),
    decreases i,
{
    if i > 0 {
        let rest = entries.drop_first();
        assert forall|j: int| 0 <= j < i - 1 implies (#[trigger] rest[j]).0@ != key@ by {
            assert(rest[j] == entries[j + 1]);
        }
        lemma_entries_with_found(rest, key, value, i - 1);
        assert(seq![entries[0]] + rest.update(i - 1, (rest[i - 1].0, value)) =~= entries.update(i, (entries[i].0, value)));
    }
}

proof fn lemma_entries_with_absent(entries: Seq<(String, JsonValue)>, key: String, value: JsonValue)
    requires
        forall|j: int| 0 <= j < entries.len() ==> (#[trigger] entries[j]).0@ != key@,
    ensures
        entries_with(entries, key, value) == entries.push((key, value)),
    decreases entries.len(),
{
    if entries.len() > 0 {
        let rest = entries.drop_first();
        assert forall|j: int| 0 <= j < rest.len() implies (#[trigger] rest[j]).0@ != key@ by {
            assert(rest[j] == entries[j + 1]);
        }
        lemma_entries_with_absent(rest, key, value);
        assert(seq![entries[0]] + rest.push((key, value)) =~= entries.push((key, value)));
    }
}

/// Reading a key after assigning it gives the assigned value, and every
/// other key reads as before.
pub proof fn lemma_read_after_assign(entries: Seq<(String, JsonValue)>, key: String, value: JsonValue, other: Seq<char>)
    ensures
        entry_lookup(entries_with(entries, key, value), key@) == Some(value),
        other != key@ ==> entry_lookup(entries_with(entries, key, value), other) == entry_lookup(
            entries,
            other,
        ),
    decreases entries.len(),
{
    if entries.len() > 0 {
        let rest = entries.drop_first();
        if entries[0].0@ == key@ {
            let updated = entries.update(0, (entries[0].0, value));
            assert(updated.drop_first() =~= rest);
            assert(updated[0].0@ == key@);
        } else {
            lemma_read_after_assign(rest, key, value, other);
            let w = seq![entries[0]] + entries_with(rest, key, value);
            assert(w.drop_first() =~= entries_with(rest, key, value));
            assert(w[0] == entries[0]);
        }
    } else {
        let t = seq![(key, value)];
        assert(t[0] == (key, value));
        assert(t.drop_first() =~= Seq::<(String, JsonValue)>::empty());
        assert(entry_lookup(t.drop_first(), other) == None::<JsonValue>);
        assert(entries_with(entries, key, value) == t);
    }
}

/// serde_json's JSON value, which its parser gives and its writer takes.
#[verifier::external_type_specification]
#[verifier::external_body]
pub struct ExSerdeValue(serde_json::Value);

/// serde_json's parse error.
#[verifier::external_type_specification]
#[verifier::external_body]
pub struct ExSerdeError(serde_json::Error);

/// Converts a serde_json value into a `JsonValue`, one for one (numbers by
/// their text, objects entry by entry in the map's order). Only the parse
/// wrappers below call it.
#[verifier::external_body]
fn value_from_serde(v: &serde_json::Value) -> JsonValue {
    match v {
        serde_json::Value::Null => JsonValue::Null,
        serde_json::Value::Bool(b) => JsonValue::Bool(*b),
        serde_json::Value::Number(n) => JsonValue::Number(n.to_string()),
        serde_json::Value::String(s) => JsonValue::Str(s.clone()),
        serde_json::Value::Array(items) => JsonValue::Array(items.iter().map(value_from_serde).collect()),
        serde_json::Value::Object(map) => JsonValue::Object(
            map.iter().map(|(k, x)| (k.clone(), value_from_serde(x))).collect(),
        ),
    }
}

/// Converts a `JsonValue` into a serde_json value, one for one (a number by
/// parsing its text, where text that is no JSON number becomes `null`;
/// objects collected into a `serde_json::Map`, as `json!` builds them).
/// Only the writing wrapper below calls it.
#[verifier::external_body]
fn value_to_serde(v: &JsonValue) -> serde_json::Value {
    match v {
        JsonValue::Null => serde_json::Value::Null,
        JsonValue::Bool(b) => serde_json::Value::Bool(*b),
        JsonValue::Number(t) => t.parse::<serde_json::Number>().map_or(serde_json::Value::Null, serde_json::Value::Number),
        JsonValue::Str(s) => serde_json::Value::String(s.clone()),
        JsonValue::Array(items) => serde_json::Value::Array(items.iter().map(value_to_serde).collect()),
        JsonValue::Object(entries) => serde_json::Value::Object(
            entries.iter().map(|(k, x)| (k.clone(), value_to_serde(x))).collect(),
        ),
    }
}

/// What `serde_json::from_str` gives for a text, as a `JsonValue`; `None`
/// where it fails.
pub uninterp spec fn spec_parse_json(text: Seq<char>) -> Option<JsonValue>;

/// What `serde_json::from_slice` gives for some bytes, as a `JsonValue`;
/// `None` where it fails.
pub uninterp spec fn spec_parse_json_bytes(bytes: Seq<u8>) -> Option<JsonValue>;

/// The bytes `serde_json::to_vec` writes for a value.
pub uninterp spec fn spec_json_bytes(v: JsonValue) -> Seq<u8>;

/// Parses JSON text with `serde_json::from_str` into a serde_json value and
/// converts it. The contract only names the result (`spec_parse_json`),
/// which depends on the text alone; serde_json's error comes back as is.
#[verifier::external_body]
pub(crate) fn parse_json_text(text: &str) -> (r: Result<JsonValue, serde_json::Error>)
    ensures
        r is Ok <==> spec_parse_json(text@) is Some,
        r matches Ok(v) ==> spec_parse_json(text@) == Some(v),
{
    match serde_json::from_str::<serde_json::Value>(text) {
        Ok(v) => Ok(value_from_serde(&v)),
        Err(e) => Err(e),
    }
}

/// Parses JSON bytes with `serde_json::from_slice` into a serde_json value
/// and converts it. The contract only names the result
/// (`spec_parse_json_bytes`), which depends on the bytes alone.
#[verifier::external_body]
pub(crate) fn parse_json_bytes(bytes: &[u8]) -> (r: Option<JsonValue>)
    ensures
        r == spec_parse_json_bytes(bytes@),
{
    match serde_json::from_slice::<serde_json::Value>(bytes) {
        Ok(v) => Some(value_from_serde(&v)),
        Err(_) => None,
    }
}

/// Writes a value compactly with `serde_json::to_vec`, after converting it.
/// Writing a serde_json value into a vector cannot fail. The contract only
/// names the bytes (`spec_json_bytes`), which depend on the value alone.
#[verifier::external_body]
pub(crate) fn json_bytes(v: &JsonValue) -> (r: Vec<u8>)
    ensures
        r@ == spec_json_bytes(*v),
{
    serde_json::to_vec(&value_to_serde(v)).unwrap_or_default()
}

} // verus!
